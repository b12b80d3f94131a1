//! Source/target filter matching, shared by timers, phases, victory triggers
//! and counters.

use vstd::prelude::*;
use std::collections::HashSet;
use crate::dsl::{
    EntityDefinition, EntityFilter, Trigger, entities_match, entity_selected, entity_selected_exec,
    filter_matches,
};
use crate::encounter::EntityType;

verus! {

/// The facts about the local player and the encounter that entity filters
/// read.
pub struct FilterContext<'a> {
    pub entities: &'a [EntityDefinition],
    pub local_player_id: Option<i64>,
    pub current_target_id: Option<i64>,
    pub boss_entity_ids: &'a HashSet<i64>,
}

/// What a filter context holds, as plain values.
pub struct FilterView {
    pub entities: Seq<EntityDefinition>,
    pub local_player_id: Option<i64>,
    pub current_target_id: Option<i64>,
    pub boss_entity_ids: Set<i64>,
}

impl<'a> View for FilterContext<'a> {
    type V = FilterView;

    open spec fn view(&self) -> FilterView {
        FilterView {
            entities: self.entities@,
            local_player_id: self.local_player_id,
            current_target_id: self.current_target_id,
            boss_entity_ids: self.boss_entity_ids@,
        }
    }
}

/// The entity described by the arguments passes the filter.
pub fn entity_filter_matches(
    f: &EntityFilter,
    entities: &[EntityDefinition],
    id: i64,
    entity_type: EntityType,
    name: &str,
    npc_id: i64,
    local_player_id: Option<i64>,
    current_target_id: Option<i64>,
    boss_entity_ids: &HashSet<i64>,
) -> (r: bool)
    ensures
        r == filter_matches(
            *f,
            entities@,
            id,
            entity_type,
            name@,
            npc_id,
            local_player_id,
            current_target_id,
            boss_entity_ids@,
        ),
{
    broadcast use vstd::std_specs::hash::group_hash_axioms;

    match f {
        EntityFilter::Any => true,
        EntityFilter::LocalPlayer => match local_player_id {
            Some(p) => p == id,
            None => false,
        },
        EntityFilter::CurrentTarget => match current_target_id {
            Some(t) => t == id,
            None => false,
        },
        EntityFilter::Boss => boss_entity_ids.contains(&id),
        EntityFilter::AnyPlayer => entity_type == EntityType::Player,
        EntityFilter::AnyNpc => entity_type == EntityType::Npc,
        EntityFilter::Selector(s) => entity_selected_exec(s, entities, npc_id, name),
    }
}

/// Source and target pass the trigger's filters (a missing filter passes
/// everything).
pub open spec fn filters_pass(
    trigger: Trigger,
    entities: Seq<EntityDefinition>,
    source_id: i64,
    source_type: EntityType,
    source_name: Seq<char>,
    source_npc_id: i64,
    target_id: i64,
    target_type: EntityType,
    target_name: Seq<char>,
    target_npc_id: i64,
    local_player_id: Option<i64>,
    current_target_id: Option<i64>,
    boss_entity_ids: Set<i64>,
) -> bool {
    &&& trigger.source_filter_of() matches Some(f) ==> filter_matches(
        f,
        entities,
        source_id,
        source_type,
        source_name,
        source_npc_id,
        local_player_id,
        current_target_id,
        boss_entity_ids,
    )
    &&& trigger.target_filter_of() matches Some(f) ==> filter_matches(
        f,
        entities,
        target_id,
        target_type,
        target_name,
        target_npc_id,
        local_player_id,
        current_target_id,
        boss_entity_ids,
    )
}

/// Check if source/target filters pass for a trigger.
/// Used by timers, phases, victory triggers, and counters.
pub fn matches_source_target_filters(
    trigger: &Trigger,
    entities: &[EntityDefinition],
    source_id: i64,
    source_type: EntityType,
    source_name: &str,
    source_npc_id: i64,
    target_id: i64,
    target_type: EntityType,
    target_name: &str,
    target_npc_id: i64,
    local_player_id: Option<i64>,
    current_target_id: Option<i64>,
    boss_entity_ids: &HashSet<i64>,
) -> (r: bool)
    ensures
        r == filters_pass(
            *trigger,
            entities@,
            source_id,
            source_type,
            source_name@,
            source_npc_id,
            target_id,
            target_type,
            target_name@,
            target_npc_id,
            local_player_id,
            current_target_id,
            boss_entity_ids@,
        ),
{
    // Check source filter if present (None = any, passes)
    if let Some(source_filter) = trigger.source_filter() {
        if !entity_filter_matches(
            source_filter,
            entities,
            source_id,
            source_type,
            source_name,
            source_npc_id,
            local_player_id,
            current_target_id,
            boss_entity_ids,
        ) {
            return false;
        }
    }
    // Check target filter if present (None = any, passes)
    if let Some(target_filter) = trigger.target_filter() {
        if !entity_filter_matches(
            target_filter,
            entities,
            target_id,
            target_type,
            target_name,
            target_npc_id,
            local_player_id,
            current_target_id,
            boss_entity_ids,
        ) {
            return false;
        }
    }
    true
}

/// Whether a timer definition is active for the current encounter context.
///
/// The definition must be enabled and active for the context (area, boss
/// and difficulty: `context_active`). With an encounter, its conditions must
/// hold (`conditions_hold` is `Some` of their verdict); without one, the
/// definition must specify no conditions at all. The same rule decides with
/// a fresh timer snapshot, where `conditions_hold` is evaluated on it.
pub fn is_definition_active(
    enabled: bool,
    context_active: bool,
    conditions_hold: Option<bool>,
    has_conditions: bool,
) -> (r: bool)
    ensures
        r == (enabled && context_active && match conditions_hold {
            Some(h) => h,
            None => !has_conditions,
        }),
{
    // First check basic context (area, boss, difficulty)
    if !enabled || !context_active {
        return false;
    }
    match conditions_hold {
        // Check conditions against the encounter
        Some(h) => h,
        // No encounter context: fail if any conditions are specified
        None => !has_conditions,
    }
}

} // verus!
