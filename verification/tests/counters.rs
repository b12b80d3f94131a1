use std::collections::HashSet;

use baras::combat::{AreaType, BossDefinition, CombatEncounter, CounterValues, SessionCache};
use baras::counter::{check_counter_increments, check_counter_timer_triggers, check_counter_trigger};
use baras::dsl::{
    AbilitySelector, CounterDefinition, EntityDefinition, EntityFilter, EntitySelector, Trigger,
};
use baras::encounter::EntityType;
use baras::matching::{FilterContext, is_definition_active, matches_source_target_filters};
use baras::signals::{
    ABILITY_ACTIVATE, APPLY_EFFECT, CombatEvent, EventAction, EventEffect, EventEntity, GameSignal,
    REMOVE_EFFECT,
};

fn entity(log_id: i64, entity_type: EntityType, name: &str, class_id: i64) -> EventEntity {
    EventEntity { log_id, entity_type, name: name.to_string(), class_id }
}

fn cast(ability_id: i64, ability: &str, source: EventEntity, target: EventEntity) -> CombatEvent {
    CombatEvent {
        timestamp: 1_000,
        source_entity: source,
        target_entity: target,
        action: EventAction { action_id: ability_id, name: ability.to_string() },
        effect: EventEffect { type_id: 0, effect_id: ABILITY_ACTIVATE, effect_name: String::new() },
    }
}

fn effect_event(type_id: i64, effect_id: i64, name: &str) -> CombatEvent {
    CombatEvent {
        timestamp: 2_000,
        source_entity: entity(1, EntityType::Player, "Me", 0),
        target_entity: entity(50, EntityType::Npc, "Brontes", 100),
        action: EventAction { action_id: 0, name: String::new() },
        effect: EventEffect { type_id, effect_id, effect_name: name.to_string() },
    }
}

fn boss_entities() -> Vec<EntityDefinition> {
    vec![EntityDefinition { name: "Brontes".to_string(), ids: vec![100, 101] }]
}

fn ability_cast(selectors: Vec<AbilitySelector>, source: EntityFilter, target: EntityFilter) -> Trigger {
    Trigger::AbilityCast { abilities: selectors, source, target }
}

fn casts_77() -> Trigger {
    ability_cast(vec![AbilitySelector::Id(77)], EntityFilter::Any, EntityFilter::Any)
}

fn on_current_target() -> Trigger {
    ability_cast(vec![AbilitySelector::Id(77)], EntityFilter::Any, EntityFilter::CurrentTarget)
}

fn counter(id: &str, increment_on: Trigger, reset_on: Trigger) -> CounterDefinition {
    CounterDefinition {
        id: id.to_string(),
        name: id.to_string(),
        enabled: true,
        display_text: None,
        increment_on,
        decrement_on: None,
        reset_on,
        initial_value: 0,
        decrement: false,
        set_value: None,
    }
}

fn encounter_with(counters: Vec<CounterDefinition>) -> CombatEncounter {
    let mut boss_ids = HashSet::new();
    boss_ids.insert(50);
    CombatEncounter {
        id: 1,
        npcs: Vec::new(),
        boss_definitions: vec![BossDefinition {
            name: "Brontes".to_string(),
            area_type: AreaType::Operation,
            has_victory_trigger: false,
            victory_trigger_difficulties: Vec::new(),
            counters,
            entities: boss_entities(),
        }],
        active_boss_idx: Some(0),
        difficulty: None,
        victory_triggered: false,
        likely_wipe: false,
        enter_combat_time: Some(0),
        effective_end_time: None,
        duration_seconds: None,
        area_id: None,
        difficulty_id: None,
        area_name: None,
        difficulty_name: None,
        area_entered_line: None,
        first_event_line: None,
        last_event_line: None,
        counters: CounterValues::new(),
        boss_entity_ids: boss_ids,
        targets: vec![(1, 50)],
    }
}

fn changes(signals: &[GameSignal]) -> Vec<(String, u32, u32)> {
    signals
        .iter()
        .map(|s| match s {
            GameSignal::CounterChanged { counter_id, old_value, new_value, .. } => {
                (counter_id.clone(), *old_value, *new_value)
            }
            _ => panic!("not a counter signal"),
        })
        .collect()
}

fn value(cache: &SessionCache, id: &str) -> u32 {
    cache.encounter.as_ref().unwrap().counters.get_counter(id)
}

#[test]
fn ability_cast_matches_by_id_or_name_and_filters() {
    let entities = boss_entities();
    let mut bosses = HashSet::new();
    bosses.insert(50);
    let ctx = FilterContext {
        entities: &entities,
        local_player_id: Some(1),
        current_target_id: Some(50),
        boss_entity_ids: &bosses,
    };
    let me_on_boss = cast(77, "Lightning", entity(1, EntityType::Player, "Me", 0), entity(50, EntityType::Npc, "Brontes", 100));
    let by_id = ability_cast(vec![AbilitySelector::Id(77)], EntityFilter::LocalPlayer, EntityFilter::Boss);
    let by_name = ability_cast(vec![AbilitySelector::Name("Lightning".to_string())], EntityFilter::Any, EntityFilter::CurrentTarget);
    let wrong = ability_cast(vec![AbilitySelector::Id(78)], EntityFilter::Any, EntityFilter::Any);
    let none_named = ability_cast(Vec::new(), EntityFilter::Any, EntityFilter::Any);
    let by_entity = ability_cast(
        vec![AbilitySelector::Id(77)],
        EntityFilter::AnyPlayer,
        EntityFilter::Selector(EntitySelector::Entity("Brontes".to_string())),
    );
    let wrong_side = ability_cast(vec![AbilitySelector::Id(77)], EntityFilter::AnyNpc, EntityFilter::Any);
    assert!(check_counter_trigger(&by_id, &me_on_boss, &[], &ctx));
    assert!(check_counter_trigger(&by_name, &me_on_boss, &[], &ctx));
    assert!(!check_counter_trigger(&wrong, &me_on_boss, &[], &ctx));
    assert!(!check_counter_trigger(&none_named, &me_on_boss, &[], &ctx));
    assert!(check_counter_trigger(&by_entity, &me_on_boss, &[], &ctx));
    assert!(!check_counter_trigger(&wrong_side, &me_on_boss, &[], &ctx));

    let mut not_activation = me_on_boss;
    not_activation.effect.effect_id = 5;
    assert!(!check_counter_trigger(&by_id, &not_activation, &[], &ctx));
}

#[test]
fn effects_and_signals_fire_their_triggers() {
    let entities = boss_entities();
    let bosses = HashSet::new();
    let ctx = FilterContext { entities: &entities, local_player_id: None, current_target_id: None, boss_entity_ids: &bosses };
    let applied = Trigger::EffectApplied {
        effects: vec![AbilitySelector::Name("Burn".to_string())],
        source: EntityFilter::Any,
        target: EntityFilter::Selector(EntitySelector::NpcId(100)),
    };
    let removed = Trigger::EffectRemoved { effects: vec![AbilitySelector::Id(9)], source: EntityFilter::Any, target: EntityFilter::Any };
    assert!(check_counter_trigger(&applied, &effect_event(APPLY_EFFECT, 9, "Burn"), &[], &ctx));
    assert!(!check_counter_trigger(&applied, &effect_event(REMOVE_EFFECT, 9, "Burn"), &[], &ctx));
    assert!(check_counter_trigger(&removed, &effect_event(REMOVE_EFFECT, 9, "Burn"), &[], &ctx));

    let idle = effect_event(0, 0, "");
    let hp = vec![GameSignal::BossHpChanged { npc_id: 101, entity_name: "Brontes".to_string(), old_hp_hundredths: 5_100, new_hp_hundredths: 4_900 }];
    let below_50 = Trigger::BossHpBelow { hp_hundredths: 5_000, selector: vec![EntitySelector::Entity("Brontes".to_string())] };
    let below_40 = Trigger::BossHpBelow { hp_hundredths: 4_000, selector: Vec::new() };
    assert!(check_counter_trigger(&below_50, &idle, &hp, &ctx));
    assert!(!check_counter_trigger(&below_40, &idle, &hp, &ctx));

    let phases = vec![
        GameSignal::PhaseChanged { old_phase: Some("p1".to_string()), new_phase: "p2".to_string() },
        GameSignal::CounterChanged { counter_id: "adds".to_string(), old_value: 2, new_value: 3, timestamp: 0 },
        GameSignal::CombatStarted { timestamp: 0 },
    ];
    assert!(check_counter_trigger(&Trigger::PhaseEntered { phase_id: "p2".to_string() }, &idle, &phases, &ctx));
    assert!(check_counter_trigger(&Trigger::PhaseEnded { phase_id: "p1".to_string() }, &idle, &phases, &ctx));
    assert!(!check_counter_trigger(&Trigger::PhaseEnded { phase_id: "p2".to_string() }, &idle, &phases, &ctx));
    assert!(check_counter_trigger(&Trigger::AnyPhaseChange, &idle, &phases, &ctx));
    assert!(check_counter_trigger(&Trigger::CounterReaches { counter_id: "adds".to_string(), value: 3 }, &idle, &phases, &ctx));
    assert!(!check_counter_trigger(&Trigger::CounterReaches { counter_id: "adds".to_string(), value: 2 }, &idle, &phases, &ctx));
    assert!(check_counter_trigger(&Trigger::CombatStart, &idle, &phases, &ctx));
    assert!(!check_counter_trigger(&Trigger::CombatEnd, &idle, &phases, &ctx));
    assert!(!check_counter_trigger(&Trigger::TimerExpires { timer_id: "t".to_string() }, &idle, &phases, &ctx));
    assert!(!check_counter_trigger(&Trigger::Never, &idle, &phases, &ctx));
    let either = Trigger::AnyOf { conditions: vec![Trigger::CombatEnd, Trigger::PhaseEntered { phase_id: "p2".to_string() }] };
    assert!(check_counter_trigger(&either, &idle, &phases, &ctx));
    assert!(!check_counter_trigger(&Trigger::AnyOf { conditions: Vec::new() }, &idle, &phases, &ctx));
}

#[test]
fn increments_decrements_and_resets() {
    let mut down = counter("lives", casts_77(), Trigger::CombatEnd);
    down.decrement = true;
    down.initial_value = 3;
    let mut fixed = counter("stage", casts_77(), Trigger::Never);
    fixed.set_value = Some(5);
    let mut both = counter("adds", casts_77(), Trigger::CombatEnd);
    both.decrement_on = Some(Trigger::CombatStart);
    let mut cache = SessionCache { player_id: 1, encounter: Some(encounter_with(vec![counter("casts", casts_77(), Trigger::CombatEnd), down, fixed, both])) };
    let event = cast(77, "Lightning", entity(1, EntityType::Player, "Me", 0), entity(50, EntityType::Npc, "Brontes", 100));

    let first = check_counter_increments(&event, &mut cache, &[]);
    assert_eq!(
        changes(&first),
        vec![
            ("casts".to_string(), 0, 1),
            ("lives".to_string(), 0, 0),
            ("stage".to_string(), 0, 5),
            ("adds".to_string(), 0, 1),
        ]
    );
    assert!(matches!(first[0], GameSignal::CounterChanged { timestamp: 1_000, .. }));

    let second = check_counter_increments(&event, &mut cache, &[GameSignal::CombatStarted { timestamp: 1 }]);
    assert_eq!(
        changes(&second),
        vec![
            ("casts".to_string(), 1, 2),
            ("lives".to_string(), 0, 0),
            ("stage".to_string(), 5, 5),
            ("adds".to_string(), 1, 2),
            ("adds".to_string(), 2, 1),
        ]
    );
    assert_eq!(value(&cache, "adds"), 1);

    let idle = effect_event(0, 0, "");
    let end = check_counter_increments(&idle, &mut cache, &[GameSignal::CombatEnded { timestamp: 3 }]);
    assert_eq!(
        changes(&end),
        vec![("casts".to_string(), 2, 0), ("lives".to_string(), 0, 3), ("adds".to_string(), 1, 0)]
    );
    assert_eq!(value(&cache, "lives"), 3);
    assert_eq!(value(&cache, "stage"), 5);
    assert_eq!(cache.player_id, 1);
}

#[test]
fn nothing_happens_without_an_active_boss() {
    let event = cast(77, "x", entity(1, EntityType::Player, "Me", 0), entity(2, EntityType::Npc, "Add", 3));
    let mut empty = SessionCache { player_id: 1, encounter: None };
    assert!(check_counter_increments(&event, &mut empty, &[]).is_empty());
    assert!(empty.encounter.is_none());

    let mut enc = encounter_with(vec![counter("casts", casts_77(), Trigger::Never)]);
    enc.active_boss_idx = None;
    let mut idle = SessionCache { player_id: 1, encounter: Some(enc) };
    assert!(check_counter_increments(&event, &mut idle, &[]).is_empty());
    assert_eq!(value(&idle, "casts"), 0);
}

#[test]
fn target_filters_use_the_local_players_target() {
    let event = cast(77, "x", entity(9, EntityType::Npc, "Add", 3), entity(50, EntityType::Npc, "Brontes", 100));
    let mut known = SessionCache { player_id: 1, encounter: Some(encounter_with(vec![counter("hits", on_current_target(), Trigger::Never)])) };
    assert_eq!(changes(&check_counter_increments(&event, &mut known, &[])), vec![("hits".to_string(), 0, 1)]);
    let mut unknown = SessionCache { player_id: 0, encounter: Some(encounter_with(vec![counter("hits", on_current_target(), Trigger::Never)])) };
    assert!(check_counter_increments(&event, &mut unknown, &[]).is_empty());
}

#[test]
fn timer_triggers_move_counters() {
    let expired = Trigger::TimerExpires { timer_id: "orbs".to_string() };
    let started = Trigger::AnyOf { conditions: vec![Trigger::Never, Trigger::TimerStarted { timer_id: "wave".to_string() }] };
    let mut waves = counter("waves", started, Trigger::TimerExpires { timer_id: "reset".to_string() });
    waves.initial_value = 10;
    let mut cache = SessionCache { player_id: 1, encounter: Some(encounter_with(vec![counter("orbs", expired, Trigger::Never), waves])) };

    assert!(check_counter_timer_triggers(&[], &[], &mut cache, 5).is_empty());
    let s = check_counter_timer_triggers(&["orbs".to_string()], &["wave".to_string()], &mut cache, 5);
    assert_eq!(changes(&s), vec![("orbs".to_string(), 0, 1), ("waves".to_string(), 0, 1)]);
    assert!(matches!(s[1], GameSignal::CounterChanged { timestamp: 5, .. }));
    let r = check_counter_timer_triggers(&["reset".to_string()], &[], &mut cache, 6);
    assert_eq!(changes(&r), vec![("waves".to_string(), 1, 10)]);
    let again = check_counter_timer_triggers(&["reset".to_string()], &[], &mut cache, 7);
    assert!(again.is_empty());
    assert_eq!(value(&cache, "orbs"), 1);
}

#[test]
fn source_and_target_filters() {
    let entities = boss_entities();
    let mut bosses = HashSet::new();
    bosses.insert(50);
    let t = ability_cast(Vec::new(), EntityFilter::LocalPlayer, EntityFilter::Selector(EntitySelector::Name("Brontes".to_string())));
    assert!(matches_source_target_filters(&t, &entities, 1, EntityType::Player, "Me", 0, 50, EntityType::Npc, "Brontes", 100, Some(1), None, &bosses));
    assert!(!matches_source_target_filters(&t, &entities, 2, EntityType::Player, "Me", 0, 50, EntityType::Npc, "Brontes", 100, Some(1), None, &bosses));
    assert!(!matches_source_target_filters(&t, &entities, 1, EntityType::Player, "Me", 0, 50, EntityType::Npc, "Styrak", 100, Some(1), None, &bosses));
    assert!(matches_source_target_filters(&Trigger::CombatStart, &entities, 0, EntityType::Empty, "", 0, 0, EntityType::Empty, "", 0, None, None, &bosses));
}

#[test]
fn triggers_counters_ignore_never_fire_on_events() {
    let entities = boss_entities();
    let bosses = HashSet::new();
    let ctx = FilterContext { entities: &entities, local_player_id: Some(1), current_target_id: None, boss_entity_ids: &bosses };
    let event = cast(77, "Lightning", entity(1, EntityType::Player, "Me", 0), entity(50, EntityType::Npc, "Brontes", 100));
    let signals = vec![
        GameSignal::BossHpChanged { npc_id: 100, entity_name: "Brontes".to_string(), old_hp_hundredths: 4_000, new_hp_hundredths: 9_000 },
        GameSignal::CombatStarted { timestamp: 0 },
    ];
    for t in [
        Trigger::Never,
        Trigger::Manual,
        Trigger::TimeElapsed { secs: 0 },
        Trigger::TargetSet { selector: Vec::new() },
        Trigger::BossHpAbove { hp_hundredths: 5_000, selector: Vec::new() },
        Trigger::TimerStarted { timer_id: "x".to_string() },
    ] {
        assert!(!check_counter_trigger(&t, &event, &signals, &ctx));
    }
}

#[test]
fn only_timer_triggers_move_on_timers() {
    let mut cache = SessionCache {
        player_id: 1,
        encounter: Some(encounter_with(vec![counter("casts", casts_77(), Trigger::CombatStart)])),
    };
    assert!(check_counter_timer_triggers(&["casts".to_string()], &["casts".to_string()], &mut cache, 1).is_empty());
    assert_eq!(value(&cache, "casts"), 0);
}

#[test]
fn counter_values_read_back() {
    let mut values = CounterValues::new();
    assert_eq!(values.get_counter("a"), 0);
    values.set_counter("a", 4);
    values.set_counter("b", 9);
    values.set_counter("a", 2);
    assert_eq!(values.get_counter("a"), 2);
    assert_eq!(values.get_counter("b"), 9);
    assert_eq!(values.get_counter("c"), 0);
}

#[test]
fn signals_replay_to_the_final_values() {
    let mut down = counter("lives", casts_77(), Trigger::Never);
    down.decrement = true;
    down.decrement_on = Some(Trigger::CombatStart);
    let mut enc = encounter_with(vec![counter("casts", casts_77(), Trigger::CombatStart), down, counter("casts", casts_77(), Trigger::Never)]);
    enc.counters.set_counter("lives", 5);
    enc.counters.set_counter("casts", 7);
    let mut cache = SessionCache { player_id: 1, encounter: Some(enc) };
    let event = cast(77, "Lightning", entity(1, EntityType::Player, "Me", 0), entity(50, EntityType::Npc, "Brontes", 100));
    let signals = check_counter_increments(&event, &mut cache, &[GameSignal::CombatStarted { timestamp: 0 }]);
    let mut replayed = CounterValues::new();
    replayed.set_counter("lives", 5);
    replayed.set_counter("casts", 7);
    for (id, old, new) in changes(&signals) {
        assert_eq!(replayed.get_counter(&id), old);
        replayed.set_counter(&id, new);
    }
    assert_eq!(replayed.get_counter("casts"), value(&cache, "casts"));
    assert_eq!(replayed.get_counter("lives"), value(&cache, "lives"));
    assert_eq!(value(&cache, "casts"), 1);
    assert_eq!(value(&cache, "lives"), 3);
}

#[test]
fn signal_order_and_extra_signals_do_not_take_firings_away() {
    let entities = boss_entities();
    let bosses = HashSet::new();
    let ctx = FilterContext { entities: &entities, local_player_id: None, current_target_id: None, boss_entity_ids: &bosses };
    let idle = effect_event(0, 0, "");
    let a = vec![
        GameSignal::CombatStarted { timestamp: 0 },
        GameSignal::PhaseEndTriggered { phase_id: "p1".to_string() },
    ];
    let b = vec![
        GameSignal::CombatEnded { timestamp: 1 },
        GameSignal::PhaseEndTriggered { phase_id: "p1".to_string() },
        GameSignal::CombatStarted { timestamp: 0 },
    ];
    for t in [
        Trigger::CombatStart,
        Trigger::PhaseEnded { phase_id: "p1".to_string() },
        Trigger::AnyOf { conditions: vec![Trigger::Never, Trigger::CombatStart] },
    ] {
        assert!(check_counter_trigger(&t, &idle, &a, &ctx));
        assert!(check_counter_trigger(&t, &idle, &b, &ctx));
        assert!(!check_counter_trigger(&t, &idle, &[], &ctx));
    }
}

#[test]
fn definition_activity() {
    assert!(is_definition_active(true, true, Some(true), true));
    assert!(!is_definition_active(true, true, Some(false), false));
    assert!(!is_definition_active(false, true, Some(true), false));
    assert!(!is_definition_active(true, false, None, false));
    assert!(is_definition_active(true, true, None, false));
    assert!(!is_definition_active(true, true, None, true));
}
