//! Counter triggers: when a counter of the active boss definition moves, and
//! the signals that report each move.
//!
//! A trigger fires on the combat-log event being processed (ability casts,
//! effects applied or removed), on the game signals derived in the same step
//! (combat start and end, health thresholds, phases, counters, damage and
//! healing), or on the timers that expired or started.

use vstd::prelude::*;
use crate::dsl::{
    CounterDefinition, Trigger, abilities_match, entities_match, entity_selected, abilities_match_exec,
    entities_match_exec,
};
use crate::matching::{FilterContext, FilterView, filters_pass, matches_source_target_filters};
use crate::signals::{ABILITY_ACTIVATE, APPLY_EFFECT, REMOVE_EFFECT, CombatEvent, GameSignal};
use crate::text::text_eq;
use crate::combat::{BossDefinition, CombatEncounter, CounterValues, SessionCache, target_of, value_of};

verus! {

// ─── When a trigger fires ────────────────────────────────────────────────────

/// The source and target of the event pass the trigger's filters.
pub open spec fn event_filters_pass(t: Trigger, e: CombatEvent, ctx: FilterView) -> bool {
    filters_pass(
        t,
        ctx.entities,
        e.source_entity.log_id,
        e.source_entity.entity_type,
        e.source_entity.name@,
        e.source_entity.class_id,
        e.target_entity.log_id,
        e.target_entity.entity_type,
        e.target_entity.name@,
        e.target_entity.class_id,
        ctx.local_player_id,
        ctx.current_target_id,
        ctx.boss_entity_ids,
    )
}

/// The trigger fires on the combat-log event: an ability activation, an
/// effect applied or an effect removed that it names, from and to entities
/// that pass its filters, or any of the triggers it combines.
pub open spec fn event_trigger_fires(t: Trigger, e: CombatEvent, ctx: FilterView) -> bool
    decreases t,
{
    match t {
        Trigger::AbilityCast { abilities, .. } => {
            &&& e.effect.effect_id == ABILITY_ACTIVATE
            &&& abilities_match(abilities@, e.action.action_id, e.action.name@)
            &&& event_filters_pass(t, e, ctx)
        },
        Trigger::EffectApplied { effects, .. } => {
            &&& e.effect.type_id == APPLY_EFFECT
            &&& abilities_match(effects@, e.effect.effect_id, e.effect.effect_name@)
            &&& event_filters_pass(t, e, ctx)
        },
        Trigger::EffectRemoved { effects, .. } => {
            &&& e.effect.type_id == REMOVE_EFFECT
            &&& abilities_match(effects@, e.effect.effect_id, e.effect.effect_name@)
            &&& event_filters_pass(t, e, ctx)
        },
        Trigger::AnyOf { conditions } => exists|i: int|
            0 <= i < conditions@.len() && event_trigger_fires(#[trigger] conditions@[i], e, ctx),
        _ => false,
    }
}

/// The (non-composite) trigger fires on one game signal.
pub open spec fn signal_matches(t: Trigger, s: GameSignal, ctx: FilterView) -> bool {
    match t {
        Trigger::CombatStart => s is CombatStarted,
        Trigger::CombatEnd => s is CombatEnded,
        Trigger::BossHpBelow { hp_hundredths, selector } => s matches GameSignal::BossHpChanged {
            npc_id,
            entity_name,
            old_hp_hundredths,
            new_hp_hundredths,
        } && old_hp_hundredths > hp_hundredths && new_hp_hundredths <= hp_hundredths
            && entities_match(selector@, ctx.entities, npc_id, entity_name@),
        Trigger::NpcAppears { selector } => s matches GameSignal::NpcFirstSeen { npc_id, entity_name }
            && entities_match(selector@, ctx.entities, npc_id, entity_name@),
        Trigger::EntityDeath { selector } => s matches GameSignal::EntityDeath { npc_id, entity_name }
            && entities_match(selector@, ctx.entities, npc_id, entity_name@),
        Trigger::PhaseEntered { phase_id } => s matches GameSignal::PhaseChanged { new_phase, .. }
            && new_phase@ == phase_id@,
        Trigger::PhaseEnded { phase_id } => {
            ||| s matches GameSignal::PhaseChanged { old_phase: Some(ended), .. } && ended@
                == phase_id@
            ||| s matches GameSignal::PhaseEndTriggered { phase_id: ended } && ended@ == phase_id@
        },
        Trigger::AnyPhaseChange => s is PhaseChanged,
        Trigger::CounterReaches { counter_id, value } => s matches GameSignal::CounterChanged {
            counter_id: changed,
            old_value,
            new_value,
            ..
        } && changed@ == counter_id@ && old_value != value && new_value == value,
        Trigger::DamageTaken { abilities, .. } => s matches GameSignal::DamageTaken {
            ability_id,
            ability_name,
            source_id,
            source_entity_type,
            source_name,
            source_npc_id,
            target_id,
            target_entity_type,
            target_name,
            target_npc_id,
        } && abilities_match(abilities@, ability_id, ability_name@) && filters_pass(
            t,
            ctx.entities,
            source_id,
            source_entity_type,
            source_name@,
            source_npc_id,
            target_id,
            target_entity_type,
            target_name@,
            target_npc_id,
            ctx.local_player_id,
            ctx.current_target_id,
            ctx.boss_entity_ids,
        ),
        Trigger::HealingTaken { abilities, .. } => s matches GameSignal::HealingDone {
            ability_id,
            ability_name,
            source_id,
            source_entity_type,
            source_name,
            source_npc_id,
            target_id,
            target_entity_type,
            target_name,
            target_npc_id,
        } && abilities_match(abilities@, ability_id, ability_name@) && filters_pass(
            t,
            ctx.entities,
            source_id,
            source_entity_type,
            source_name@,
            source_npc_id,
            target_id,
            target_entity_type,
            target_name@,
            target_npc_id,
            ctx.local_player_id,
            ctx.current_target_id,
            ctx.boss_entity_ids,
        ),
        _ => false,
    }
}

/// The trigger fires on some signal of the step, or is a combination of
/// which some trigger does.
pub open spec fn signal_trigger_fires(t: Trigger, signals: Seq<GameSignal>, ctx: FilterView) -> bool
    decreases t,
{
    match t {
        Trigger::AnyOf { conditions } => exists|i: int|
            0 <= i < conditions@.len() && signal_trigger_fires(
                #[trigger] conditions@[i],
                signals,
                ctx,
            ),
        _ => exists|j: int| 0 <= j < signals.len() && signal_matches(t, #[trigger] signals[j], ctx),
    }
}

/// The trigger fires on the event or on the signals of the step.
pub open spec fn counter_trigger_fires(
    t: Trigger,
    e: CombatEvent,
    signals: Seq<GameSignal>,
    ctx: FilterView,
) -> bool {
    event_trigger_fires(t, e, ctx) || signal_trigger_fires(t, signals, ctx)
}

/// Some timer id of the list equals `id`.
pub open spec fn listed(ids: Seq<String>, id: Seq<char>) -> bool {
    exists|k: int| 0 <= k < ids.len() && (#[trigger] ids[k])@ == id
}

/// The trigger fires on the timers that expired or started: it names one of
/// them, or combines triggers of which some does.
pub open spec fn timer_trigger_fires(t: Trigger, expired: Seq<String>, started: Seq<String>) -> bool
    decreases t,
{
    match t {
        Trigger::TimerExpires { timer_id } => listed(expired, timer_id@),
        Trigger::TimerStarted { timer_id } => listed(started, timer_id@),
        Trigger::AnyOf { conditions } => exists|i: int|
            0 <= i < conditions@.len() && timer_trigger_fires(
                #[trigger] conditions@[i],
                expired,
                started,
            ),
        _ => false,
    }
}

// ─── Checking triggers ───────────────────────────────────────────────────────

/// Check source/target filters for event-based triggers.
fn check_event_filters(trigger: &Trigger, event: &CombatEvent, filter_ctx: &FilterContext) -> (r: bool)
    ensures
        r == event_filters_pass(*trigger, *event, filter_ctx@),
{
    matches_source_target_filters(
        trigger,
        filter_ctx.entities,
        event.source_entity.log_id,
        event.source_entity.entity_type,
        event.source_entity.name.as_str(),
        event.source_entity.class_id,
        event.target_entity.log_id,
        event.target_entity.entity_type,
        event.target_entity.name.as_str(),
        event.target_entity.class_id,
        filter_ctx.local_player_id,
        filter_ctx.current_target_id,
        filter_ctx.boss_entity_ids,
    )
}

/// Check event-based triggers (AbilityCast, EffectApplied, EffectRemoved).
pub fn check_event_based_trigger(trigger: &Trigger, event: &CombatEvent, filter_ctx: &FilterContext) -> (r: bool)
    ensures
        r == event_trigger_fires(*trigger, *event, filter_ctx@),
    decreases trigger,
{
    match trigger {
        Trigger::AbilityCast { abilities, .. } => {
            if event.effect.effect_id != ABILITY_ACTIVATE {
                return false;
            }
            if !abilities_match_exec(abilities, event.action.action_id, event.action.name.as_str()) {
                return false;
            }
            check_event_filters(trigger, event, filter_ctx)
        },
        Trigger::EffectApplied { effects, .. } => {
            if event.effect.type_id != APPLY_EFFECT {
                return false;
            }
            if !abilities_match_exec(effects, event.effect.effect_id, event.effect.effect_name.as_str()) {
                return false;
            }
            check_event_filters(trigger, event, filter_ctx)
        },
        Trigger::EffectRemoved { effects, .. } => {
            if event.effect.type_id != REMOVE_EFFECT {
                return false;
            }
            if !abilities_match_exec(effects, event.effect.effect_id, event.effect.effect_name.as_str()) {
                return false;
            }
            check_event_filters(trigger, event, filter_ctx)
        },
        Trigger::AnyOf { conditions } => {
            let n = conditions.len();
            let mut i: usize = 0;
            while i < n
                invariant
                    n == conditions@.len(),
                    i <= n,
                    *trigger == (Trigger::AnyOf { conditions: *conditions }),
                    forall|k: int|
                        0 <= k < i ==> !event_trigger_fires(#[trigger] conditions@[k], *event, filter_ctx@),
                decreases n - i,
            {
                proof {
                    assert(trigger->conditions == *conditions);
                    assert(decreases_to!(*trigger => trigger->conditions));
                    assert(decreases_to!(*conditions => conditions@));
                    assert(decreases_to!(conditions@ => conditions@[i as int]));
                }
                if check_event_based_trigger(&conditions[i], event, filter_ctx) {
                    assert(event_trigger_fires(conditions@[i as int], *event, filter_ctx@));
                    assert(event_trigger_fires(*trigger, *event, filter_ctx@));
                    return true;
                }
                i = i + 1;
            }
            false
        },
        _ => false,
    }
}

/// Whether the (non-composite) trigger fires on one game signal.
fn signal_matches_exec(trigger: &Trigger, signal: &GameSignal, filter_ctx: &FilterContext) -> (r: bool)
    ensures
        r == signal_matches(*trigger, *signal, filter_ctx@),
{
    match trigger {
        Trigger::CombatStart => matches!(signal, GameSignal::CombatStarted { .. }),
        Trigger::CombatEnd => matches!(signal, GameSignal::CombatEnded { .. }),
        Trigger::BossHpBelow { hp_hundredths, selector } => match signal {
            GameSignal::BossHpChanged { npc_id, entity_name, old_hp_hundredths, new_hp_hundredths } => {
                *old_hp_hundredths > *hp_hundredths && *new_hp_hundredths <= *hp_hundredths
                    && entities_match_exec(selector, filter_ctx.entities, *npc_id, entity_name.as_str())
            },
            _ => false,
        },
        Trigger::NpcAppears { selector } => match signal {
            GameSignal::NpcFirstSeen { npc_id, entity_name } => entities_match_exec(
                selector,
                filter_ctx.entities,
                *npc_id,
                entity_name.as_str(),
            ),
            _ => false,
        },
        Trigger::EntityDeath { selector } => match signal {
            GameSignal::EntityDeath { npc_id, entity_name } => entities_match_exec(
                selector,
                filter_ctx.entities,
                *npc_id,
                entity_name.as_str(),
            ),
            _ => false,
        },
        Trigger::PhaseEntered { phase_id } => match signal {
            GameSignal::PhaseChanged { new_phase, .. } => text_eq(new_phase.as_str(), phase_id.as_str()),
            _ => false,
        },
        Trigger::PhaseEnded { phase_id } => match signal {
            GameSignal::PhaseChanged { old_phase: Some(ended), .. } => text_eq(ended.as_str(), phase_id.as_str()),
            GameSignal::PhaseEndTriggered { phase_id: ended } => text_eq(ended.as_str(), phase_id.as_str()),
            _ => false,
        },
        Trigger::AnyPhaseChange => matches!(signal, GameSignal::PhaseChanged { .. }),
        Trigger::CounterReaches { counter_id, value } => match signal {
            GameSignal::CounterChanged { counter_id: changed, old_value, new_value, .. } => {
                text_eq(changed.as_str(), counter_id.as_str()) && *old_value != *value && *new_value
                    == *value
            },
            _ => false,
        },
        Trigger::DamageTaken { abilities, .. } => match signal {
            GameSignal::DamageTaken {
                ability_id,
                ability_name,
                source_id,
                source_entity_type,
                source_name,
                source_npc_id,
                target_id,
                target_entity_type,
                target_name,
                target_npc_id,
            } => {
                if !abilities_match_exec(abilities, *ability_id, ability_name.as_str()) {
                    return false;
                }
                matches_source_target_filters(
                    trigger,
                    filter_ctx.entities,
                    *source_id,
                    *source_entity_type,
                    source_name.as_str(),
                    *source_npc_id,
                    *target_id,
                    *target_entity_type,
                    target_name.as_str(),
                    *target_npc_id,
                    filter_ctx.local_player_id,
                    filter_ctx.current_target_id,
                    filter_ctx.boss_entity_ids,
                )
            },
            _ => false,
        },
        Trigger::HealingTaken { abilities, .. } => match signal {
            GameSignal::HealingDone {
                ability_id,
                ability_name,
                source_id,
                source_entity_type,
                source_name,
                source_npc_id,
                target_id,
                target_entity_type,
                target_name,
                target_npc_id,
            } => {
                if !abilities_match_exec(abilities, *ability_id, ability_name.as_str()) {
                    return false;
                }
                matches_source_target_filters(
                    trigger,
                    filter_ctx.entities,
                    *source_id,
                    *source_entity_type,
                    source_name.as_str(),
                    *source_npc_id,
                    *target_id,
                    *target_entity_type,
                    target_name.as_str(),
                    *target_npc_id,
                    filter_ctx.local_player_id,
                    filter_ctx.current_target_id,
                    filter_ctx.boss_entity_ids,
                )
            },
            _ => false,
        },
        _ => false,
    }
}

/// Check signal-based triggers (everything derived from GameSignal).
pub fn check_signal_based_trigger(trigger: &Trigger, signals: &[GameSignal], filter_ctx: &FilterContext) -> (r: bool)
    ensures
        r == signal_trigger_fires(*trigger, signals@, filter_ctx@),
    decreases trigger,
{
    match trigger {
        Trigger::AnyOf { conditions } => {
            let n = conditions.len();
            let mut i: usize = 0;
            while i < n
                invariant
                    n == conditions@.len(),
                    i <= n,
                    *trigger == (Trigger::AnyOf { conditions: *conditions }),
                    forall|k: int|
                        0 <= k < i ==> !signal_trigger_fires(#[trigger] conditions@[k], signals@, filter_ctx@),
                decreases n - i,
            {
                proof {
                    assert(trigger->conditions == *conditions);
                    assert(decreases_to!(*trigger => trigger->conditions));
                    assert(decreases_to!(*conditions => conditions@));
                    assert(decreases_to!(conditions@ => conditions@[i as int]));
                }
                if check_signal_based_trigger(&conditions[i], signals, filter_ctx) {
                    assert(signal_trigger_fires(conditions@[i as int], signals@, filter_ctx@));
                    return true;
                }
                i = i + 1;
            }
            false
        },
        _ => {
            let n = signals.len();
            let mut j: usize = 0;
            while j < n
                invariant
                    n == signals@.len(),
                    j <= n,
                    !(trigger is AnyOf),
                    forall|k: int| 0 <= k < j ==> !signal_matches(*trigger, #[trigger] signals@[k], filter_ctx@),
                decreases n - j,
            {
                if signal_matches_exec(trigger, &signals[j], filter_ctx) {
                    assert(signal_matches(*trigger, signals@[j as int], filter_ctx@));
                    return true;
                }
                j = j + 1;
            }
            false
        },
    }
}

/// Check if a counter trigger is satisfied by the current event/signals.
pub fn check_counter_trigger(
    trigger: &Trigger,
    event: &CombatEvent,
    current_signals: &[GameSignal],
    filter_ctx: &FilterContext,
) -> (r: bool)
    ensures
        r == counter_trigger_fires(*trigger, *event, current_signals@, filter_ctx@),
{
    // Try event-based triggers first (from CombatEvent)
    if check_event_based_trigger(trigger, event, filter_ctx) {
        return true;
    }
    // Then check signal-based triggers (from GameSignal)
    check_signal_based_trigger(trigger, current_signals, filter_ctx)
}

/// Whether some id of the list equals `id`.
fn id_listed(ids: &[String], id: &str) -> (r: bool)
    ensures
        r == listed(ids@, id@),
{
    let n = ids.len();
    let mut k: usize = 0;
    while k < n
        invariant
            n == ids@.len(),
            k <= n,
            forall|q: int| 0 <= q < k ==> (#[trigger] ids@[q])@ != id@,
        decreases n - k,
    {
        if text_eq(ids[k].as_str(), id) {
            assert(ids@[k as int]@ == id@);
            return true;
        }
        k = k + 1;
    }
    false
}

/// Check if a trigger matches any expired or started timer IDs.
/// Handles TimerExpires, TimerStarted, and AnyOf wrappers.
fn matches_timer_trigger(trigger: &Trigger, expired_timer_ids: &[String], started_timer_ids: &[String]) -> (r: bool)
    ensures
        r == timer_trigger_fires(*trigger, expired_timer_ids@, started_timer_ids@),
    decreases trigger,
{
    match trigger {
        Trigger::TimerExpires { timer_id } => id_listed(expired_timer_ids, timer_id.as_str()),
        Trigger::TimerStarted { timer_id } => id_listed(started_timer_ids, timer_id.as_str()),
        Trigger::AnyOf { conditions } => {
            let n = conditions.len();
            let mut i: usize = 0;
            while i < n
                invariant
                    n == conditions@.len(),
                    i <= n,
                    *trigger == (Trigger::AnyOf { conditions: *conditions }),
                    forall|k: int|
                        0 <= k < i ==> !timer_trigger_fires(
                            #[trigger] conditions@[k],
                            expired_timer_ids@,
                            started_timer_ids@,
                        ),
                decreases n - i,
            {
                proof {
                    assert(trigger->conditions == *conditions);
                    assert(decreases_to!(*trigger => trigger->conditions));
                    assert(decreases_to!(*conditions => conditions@));
                    assert(decreases_to!(conditions@ => conditions@[i as int]));
                }
                if matches_timer_trigger(&conditions[i], expired_timer_ids, started_timer_ids) {
                    assert(timer_trigger_fires(conditions@[i as int], expired_timer_ids@, started_timer_ids@));
                    return true;
                }
                i = i + 1;
            }
            false
        },
        _ => false,
    }
}

// ─── Moving counters ─────────────────────────────────────────────────────────

/// One more, staying at the largest value.
pub open spec fn incremented(v: u32) -> u32 {
    if v == u32::MAX {
        v
    } else {
        (v + 1) as u32
    }
}

/// One less, staying at zero.
pub open spec fn decremented(v: u32) -> u32 {
    if v == 0 {
        0
    } else {
        (v - 1) as u32
    }
}

/// Where the counter moves from `v` when its increment trigger fires: to its
/// set value if it has one, else one down for a counting-down counter, else
/// one up.
pub open spec fn stepped_value(c: CounterDefinition, v: u32) -> u32 {
    match c.set_value {
        Some(s) => s,
        None => if c.decrement {
            decremented(v)
        } else {
            incremented(v)
        },
    }
}

/// The signal that reports a counter's move.
pub open spec fn change_signal(id: String, old_value: u32, new_value: u32, timestamp: i64) -> GameSignal {
    GameSignal::CounterChanged { counter_id: id, old_value, new_value, timestamp }
}

/// The counter values and the signals reported so far, after counter `id`
/// moved to `new_value` and the move was reported.
pub open spec fn moved(
    st: (Map<Seq<char>, u32>, Seq<GameSignal>),
    id: String,
    new_value: u32,
    timestamp: i64,
) -> (Map<Seq<char>, u32>, Seq<GameSignal>) {
    (
        st.0.insert(id@, new_value),
        st.1.push(change_signal(id, value_of(st.0, id@), new_value, timestamp)),
    )
}

/// One counter's turn: its increment trigger moves it as `stepped_value`
/// says, then its decrement trigger moves it one down, then its reset
/// trigger moves it back to its initial value (reported only when that is a
/// change).
pub open spec fn counter_step(
    c: CounterDefinition,
    st: (Map<Seq<char>, u32>, Seq<GameSignal>),
    increment: bool,
    decrement: bool,
    reset: bool,
    timestamp: i64,
) -> (Map<Seq<char>, u32>, Seq<GameSignal>) {
    let st1 = if increment {
        moved(st, c.id, stepped_value(c, value_of(st.0, c.id@)), timestamp)
    } else {
        st
    };
    let st2 = if decrement {
        moved(st1, c.id, decremented(value_of(st1.0, c.id@)), timestamp)
    } else {
        st1
    };
    if reset && value_of(st2.0, c.id@) != c.initial_value {
        moved(st2, c.id, c.initial_value, timestamp)
    } else {
        st2
    }
}

/// The counters' turns in order, each trigger firing as `fires` says.
pub open spec fn counters_run(
    cs: Seq<CounterDefinition>,
    st: (Map<Seq<char>, u32>, Seq<GameSignal>),
    fires: spec_fn(Trigger) -> bool,
    timestamp: i64,
) -> (Map<Seq<char>, u32>, Seq<GameSignal>)
    decreases cs.len(),
{
    if cs.len() == 0 {
        st
    } else {
        let c = cs.last();
        counter_step(
            c,
            counters_run(cs.drop_last(), st, fires, timestamp),
            fires(c.increment_on),
            c.decrement_on matches Some(d) && fires(d),
            fires(c.reset_on),
            timestamp,
        )
    }
}

/// Which triggers fire on a combat-log event and the signals of its step.
pub open spec fn fires_on_step(e: CombatEvent, signals: Seq<GameSignal>, ctx: FilterView) -> spec_fn(Trigger) -> bool {
    |t: Trigger| counter_trigger_fires(t, e, signals, ctx)
}

/// Which triggers fire on the timers that expired or started.
pub open spec fn fires_on_timers(expired: Seq<String>, started: Seq<String>) -> spec_fn(Trigger) -> bool {
    |t: Trigger| timer_trigger_fires(t, expired, started)
}

/// The local player's log id, when known (zero stands for not yet known).
pub open spec fn known_player(player_id: i64) -> Option<i64> {
    if player_id != 0 {
        Some(player_id)
    } else {
        None
    }
}

/// The filter context that the counters of the active boss are checked in.
pub open spec fn step_context(player_id: i64, enc: CombatEncounter, def: BossDefinition) -> FilterView {
    FilterView {
        entities: def.entities@,
        local_player_id: known_player(player_id),
        current_target_id: match known_player(player_id) {
            Some(p) => target_of(enc.targets@, p),
            None => None,
        },
        boss_entity_ids: enc.boss_entity_ids@,
    }
}

/// Moves counter `id` to `new_value` and reports the move.
fn move_counter(counters: &mut CounterValues, out: &mut Vec<GameSignal>, id: &String, new_value: u32, timestamp: i64)
    ensures
        final(counters)@ == moved((old(counters)@, old(out)@), *id, new_value, timestamp).0,
        final(out)@ == moved((old(counters)@, old(out)@), *id, new_value, timestamp).1,
{
    let old_value = counters.get_counter(id.as_str());
    counters.set_counter(id.as_str(), new_value);
    out.push(GameSignal::CounterChanged { counter_id: id.clone(), old_value, new_value, timestamp });
}

/// One counter's turn, given which of its triggers fired.
fn apply_counter(
    c: &CounterDefinition,
    increment: bool,
    decrement: bool,
    reset: bool,
    counters: &mut CounterValues,
    out: &mut Vec<GameSignal>,
    timestamp: i64,
)
    ensures
        final(counters)@ == counter_step(*c, (old(counters)@, old(out)@), increment, decrement, reset, timestamp).0,
        final(out)@ == counter_step(*c, (old(counters)@, old(out)@), increment, decrement, reset, timestamp).1,
{
    if increment {
        let current = counters.get_counter(c.id.as_str());
        let next = match c.set_value {
            Some(v) => v,
            None => if c.decrement {
                if current == 0 { 0 } else { current - 1 }
            } else {
                if current == u32::MAX { current } else { current + 1 }
            },
        };
        move_counter(counters, out, &c.id, next, timestamp);
    }
    if decrement {
        let current = counters.get_counter(c.id.as_str());
        let next = if current == 0 { 0 } else { current - 1 };
        move_counter(counters, out, &c.id, next, timestamp);
    }
    if reset {
        let current = counters.get_counter(c.id.as_str());
        // Only report a reset that changes the value
        if current != c.initial_value {
            move_counter(counters, out, &c.id, c.initial_value, timestamp);
        }
    }
}

/// Check for counter increments/decrements based on events and emit CounterChanged signals.
pub fn check_counter_increments(
    event: &CombatEvent,
    cache: &mut SessionCache,
    current_signals: &[GameSignal],
) -> (signals: Vec<GameSignal>)
    requires
        old(cache).encounter matches Some(enc) ==> enc.well_formed(),
    ensures
        final(cache).player_id == old(cache).player_id,
        old(cache).encounter is None ==> final(cache).encounter is None && signals@.len() == 0,
        old(cache).encounter matches Some(enc) ==> final(cache).encounter matches Some(after) && match enc.active_boss_idx {
            None => after == enc && signals@.len() == 0,
            Some(i) => {
                let def = enc.boss_definitions@[i as int];
                let run = counters_run(
                    def.counters@,
                    (enc.counters@, Seq::empty()),
                    fires_on_step(*event, current_signals@, step_context(old(cache).player_id, enc, def)),
                    event.timestamp,
                );
                enc.with_counter_values(after, run.0) && signals@ == run.1
            },
        },
{
    let mut slot: Option<CombatEncounter> = None;
    std::mem::swap(&mut slot, &mut cache.encounter);
    let mut enc = match slot {
        Some(e) => e,
        None => return Vec::new(),
    };
    let idx = match enc.active_boss_idx {
        Some(i) => i,
        None => {
            cache.encounter = Some(enc);
            return Vec::new();
        },
    };
    let local_player_id = if cache.player_id != 0 { Some(cache.player_id) } else { None };
    let current_target_id = match local_player_id {
        Some(p) => enc.target_of_entity(p),
        None => None,
    };
    let ghost enc0 = enc;
    let mut counters = CounterValues::new();
    std::mem::swap(&mut counters, &mut enc.counters);
    let ghost start = counters@;
    let mut signals: Vec<GameSignal> = Vec::new();
    {
        let def = &enc.boss_definitions[idx];
        let filter_ctx = FilterContext {
            entities: def.entities.as_slice(),
            local_player_id,
            current_target_id,
            boss_entity_ids: &enc.boss_entity_ids,
        };
        let ghost fires = fires_on_step(*event, current_signals@, filter_ctx@);
        assert(filter_ctx@ == step_context(cache.player_id, enc0, *def));
        let n = def.counters.len();
        let mut i: usize = 0;
        while i < n
            invariant
                n == def.counters@.len(),
                i <= n,
                fires == fires_on_step(*event, current_signals@, filter_ctx@),
                counters@ == counters_run(def.counters@.take(i as int), (start, Seq::empty()), fires, event.timestamp).0,
                signals@ == counters_run(def.counters@.take(i as int), (start, Seq::empty()), fires, event.timestamp).1,
            decreases n - i,
        {
            let c = &def.counters[i];
            let increment = check_counter_trigger(&c.increment_on, event, current_signals, &filter_ctx);
            let decrement = match &c.decrement_on {
                Some(d) => check_counter_trigger(d, event, current_signals, &filter_ctx),
                None => false,
            };
            let reset = check_counter_trigger(&c.reset_on, event, current_signals, &filter_ctx);
            apply_counter(c, increment, decrement, reset, &mut counters, &mut signals, event.timestamp);
            proof {
                assert(def.counters@.take(i + 1).drop_last() =~= def.counters@.take(i as int));
            }
            i = i + 1;
        }
        proof {
            assert(def.counters@.take(n as int) =~= def.counters@);
        }
    }
    enc.counters = counters;
    cache.encounter = Some(enc);
    signals
}

/// Check for counter changes triggered by timer events (expires/starts).
/// Called after the timers have processed the step's signals.
pub fn check_counter_timer_triggers(
    expired_timer_ids: &[String],
    started_timer_ids: &[String],
    cache: &mut SessionCache,
    timestamp: i64,
) -> (signals: Vec<GameSignal>)
    requires
        old(cache).encounter matches Some(enc) ==> enc.well_formed(),
    ensures
        final(cache).player_id == old(cache).player_id,
        expired_timer_ids@.len() == 0 && started_timer_ids@.len() == 0 ==> *final(cache) == *old(cache)
            && signals@.len() == 0,
        old(cache).encounter is None ==> final(cache).encounter is None && signals@.len() == 0,
        old(cache).encounter matches Some(enc) ==> final(cache).encounter matches Some(after) && match enc.active_boss_idx {
            None => after == enc && signals@.len() == 0,
            Some(i) => expired_timer_ids@.len() + started_timer_ids@.len() > 0 ==> {
                let run = counters_run(
                    enc.boss_definitions@[i as int].counters@,
                    (enc.counters@, Seq::empty()),
                    fires_on_timers(expired_timer_ids@, started_timer_ids@),
                    timestamp,
                );
                enc.with_counter_values(after, run.0) && signals@ == run.1
            },
        },
{
    if expired_timer_ids.len() == 0 && started_timer_ids.len() == 0 {
        return Vec::new();
    }
    let mut slot: Option<CombatEncounter> = None;
    std::mem::swap(&mut slot, &mut cache.encounter);
    let mut enc = match slot {
        Some(e) => e,
        None => return Vec::new(),
    };
    let idx = match enc.active_boss_idx {
        Some(i) => i,
        None => {
            cache.encounter = Some(enc);
            return Vec::new();
        },
    };
    let mut counters = CounterValues::new();
    std::mem::swap(&mut counters, &mut enc.counters);
    let ghost start = counters@;
    let ghost fires = fires_on_timers(expired_timer_ids@, started_timer_ids@);
    let mut signals: Vec<GameSignal> = Vec::new();
    {
        let def = &enc.boss_definitions[idx];
        let n = def.counters.len();
        let mut i: usize = 0;
        while i < n
            invariant
                n == def.counters@.len(),
                i <= n,
                fires == fires_on_timers(expired_timer_ids@, started_timer_ids@),
                counters@ == counters_run(def.counters@.take(i as int), (start, Seq::empty()), fires, timestamp).0,
                signals@ == counters_run(def.counters@.take(i as int), (start, Seq::empty()), fires, timestamp).1,
            decreases n - i,
        {
            let c = &def.counters[i];
            let increment = matches_timer_trigger(&c.increment_on, expired_timer_ids, started_timer_ids);
            let decrement = match &c.decrement_on {
                Some(d) => matches_timer_trigger(d, expired_timer_ids, started_timer_ids),
                None => false,
            };
            let reset = matches_timer_trigger(&c.reset_on, expired_timer_ids, started_timer_ids);
            apply_counter(c, increment, decrement, reset, &mut counters, &mut signals, timestamp);
            proof {
                assert(def.counters@.take(i + 1).drop_last() =~= def.counters@.take(i as int));
            }
            i = i + 1;
        }
        proof {
            assert(def.counters@.take(n as int) =~= def.counters@);
        }
    }
    enc.counters = counters;
    cache.encounter = Some(enc);
    signals
}

// ─── Laws ────────────────────────────────────────────────────────────────────

/// The counter values after applying, in order, the moves that counter
/// signals report to the values `m`.
pub open spec fn replay(m: Map<Seq<char>, u32>, signals: Seq<GameSignal>) -> Map<Seq<char>, u32>
    decreases signals.len(),
{
    if signals.len() == 0 {
        m
    } else {
        let before = replay(m, signals.drop_last());
        match signals.last() {
            GameSignal::CounterChanged { counter_id, new_value, .. } => before.insert(counter_id@, new_value),
            _ => before,
        }
    }
}

/// Each signal reports a counter move whose old value is the counter's value
/// after the moves reported before it, starting from the values `m`.
pub open spec fn reports_chain(m: Map<Seq<char>, u32>, signals: Seq<GameSignal>) -> bool {
    forall|i: int|
        0 <= i < signals.len() ==> (#[trigger] signals[i] matches GameSignal::CounterChanged {
            counter_id,
            old_value,
            ..
        } && old_value == value_of(replay(m, signals.take(i)), counter_id@))
}

proof fn lemma_moved_keeps_report(
    m: Map<Seq<char>, u32>,
    st: (Map<Seq<char>, u32>, Seq<GameSignal>),
    id: String,
    new_value: u32,
    timestamp: i64,
)
    requires
        replay(m, st.1) == st.0,
        reports_chain(m, st.1),
    ensures
        replay(m, moved(st, id, new_value, timestamp).1) == moved(st, id, new_value, timestamp).0,
        reports_chain(m, moved(st, id, new_value, timestamp).1),
{
    let after = moved(st, id, new_value, timestamp).1;
    assert(after.drop_last() =~= st.1);
    assert forall|i: int| 0 <= i < after.len() implies (#[trigger] after[i] matches GameSignal::CounterChanged {
        counter_id,
        old_value,
        ..
    } && old_value == value_of(replay(m, after.take(i)), counter_id@)) by {
        if i < st.1.len() {
            assert(after.take(i) =~= st.1.take(i));
            assert(after[i] == st.1[i]);
        } else {
            assert(after.take(i) =~= st.1);
        }
    }
}

proof fn lemma_step_keeps_report(
    m: Map<Seq<char>, u32>,
    c: CounterDefinition,
    st: (Map<Seq<char>, u32>, Seq<GameSignal>),
    increment: bool,
    decrement: bool,
    reset: bool,
    timestamp: i64,
)
    requires
        replay(m, st.1) == st.0,
        reports_chain(m, st.1),
    ensures
        replay(m, counter_step(c, st, increment, decrement, reset, timestamp).1) == counter_step(
            c,
            st,
            increment,
            decrement,
            reset,
            timestamp,
        ).0,
        reports_chain(m, counter_step(c, st, increment, decrement, reset, timestamp).1),
{
    let st1 = if increment {
        moved(st, c.id, stepped_value(c, value_of(st.0, c.id@)), timestamp)
    } else {
        st
    };
    if increment {
        lemma_moved_keeps_report(m, st, c.id, stepped_value(c, value_of(st.0, c.id@)), timestamp);
    }
    let st2 = if decrement {
        moved(st1, c.id, decremented(value_of(st1.0, c.id@)), timestamp)
    } else {
        st1
    };
    if decrement {
        lemma_moved_keeps_report(m, st1, c.id, decremented(value_of(st1.0, c.id@)), timestamp);
    }
    if reset && value_of(st2.0, c.id@) != c.initial_value {
        lemma_moved_keeps_report(m, st2, c.id, c.initial_value, timestamp);
    }
}

proof fn lemma_run_keeps_report(
    cs: Seq<CounterDefinition>,
    m: Map<Seq<char>, u32>,
    fires: spec_fn(Trigger) -> bool,
    timestamp: i64,
)
    ensures
        replay(m, counters_run(cs, (m, Seq::empty()), fires, timestamp).1) == counters_run(
            cs,
            (m, Seq::empty()),
            fires,
            timestamp,
        ).0,
        reports_chain(m, counters_run(cs, (m, Seq::empty()), fires, timestamp).1),
    decreases cs.len(),
{
    if cs.len() == 0 {
        assert(replay(m, Seq::<GameSignal>::empty()) == m);
    } else {
        let c = cs.last();
        lemma_run_keeps_report(cs.drop_last(), m, fires, timestamp);
        lemma_step_keeps_report(
            m,
            c,
            counters_run(cs.drop_last(), (m, Seq::empty()), fires, timestamp),
            fires(c.increment_on),
            c.decrement_on matches Some(d) && fires(d),
            fires(c.reset_on),
            timestamp,
        );
    }
}

/// The signals of a counter step tell its moves exactly: whichever triggers
/// fire, each signal reports as old value the counter's value after the
/// moves reported before it, and replaying the reported moves on the values
/// before the step gives the values after it.
pub proof fn law_counter_signals_replay_the_step(
    cs: Seq<CounterDefinition>,
    values: Map<Seq<char>, u32>,
    fires: spec_fn(Trigger) -> bool,
    timestamp: i64,
)
    ensures
        ({
            let run = counters_run(cs, (values, Seq::empty()), fires, timestamp);
            &&& reports_chain(values, run.1)
            &&& replay(values, run.1) == run.0
        }),
{
    lemma_run_keeps_report(cs, values, fires, timestamp);
}

/// A counter that no definition of the step names keeps its value, and no
/// signal reports it.
pub proof fn law_undefined_counters_stay(
    cs: Seq<CounterDefinition>,
    values: Map<Seq<char>, u32>,
    fires: spec_fn(Trigger) -> bool,
    timestamp: i64,
    id: Seq<char>,
)
    requires
        forall|k: int| 0 <= k < cs.len() ==> (#[trigger] cs[k]).id@ != id,
    ensures
        ({
            let run = counters_run(cs, (values, Seq::empty()), fires, timestamp);
            &&& run.0.contains_key(id) == values.contains_key(id)
            &&& run.0.contains_key(id) ==> run.0[id] == values[id]
            &&& forall|i: int|
                0 <= i < run.1.len() ==> !(#[trigger] run.1[i] matches GameSignal::CounterChanged {
                    counter_id,
                    ..
                } && counter_id@ == id)
        }),
    decreases cs.len(),
{
    if cs.len() > 0 {
        let d = cs.drop_last();
        assert forall|k: int| 0 <= k < d.len() implies (#[trigger] d[k]).id@ != id by {
            assert(d[k] == cs[k]);
        }
        law_undefined_counters_stay(d, values, fires, timestamp, id);
        assert(cs.last().id@ != id) by {
            assert(cs[cs.len() - 1].id@ != id);
        }
        let c = cs.last();
        let st = counters_run(d, (values, Seq::empty()), fires, timestamp);
        let inc = fires(c.increment_on);
        let dec = c.decrement_on matches Some(t) && fires(t);
        let st1 = if inc {
            moved(st, c.id, stepped_value(c, value_of(st.0, c.id@)), timestamp)
        } else {
            st
        };
        let st2 = if dec {
            moved(st1, c.id, decremented(value_of(st1.0, c.id@)), timestamp)
        } else {
            st1
        };
        let run = counters_run(cs, (values, Seq::empty()), fires, timestamp);
        assert forall|i: int| 0 <= i < run.1.len() implies !(#[trigger] run.1[i] matches GameSignal::CounterChanged {
            counter_id,
            ..
        } && counter_id@ == id) by {
            if i < st.1.len() {
                assert(st1.1[i] == st.1[i]);
                assert(st2.1[i] == st1.1[i]);
                assert(run.1[i] == st2.1[i]);
            } else if i < st1.1.len() {
                assert(st2.1[i] == st1.1[i]);
                assert(run.1[i] == st2.1[i]);
            } else if i < st2.1.len() {
                assert(run.1[i] == st2.1[i]);
            }
        }
    }
}

/// Triggers that counters do not react to on events and signals never fire
/// there: `Never`, the timer triggers (checked against the timers instead),
/// and the triggers meant for timers and phases only.
pub proof fn law_inapplicable_triggers_never_fire(
    t: Trigger,
    e: CombatEvent,
    signals: Seq<GameSignal>,
    ctx: FilterView,
)
    requires
        t is Never || t is TimerExpires || t is TimerStarted || t is TimeElapsed || t is BossHpAbove
            || t is TargetSet || t is Manual,
    ensures
        !counter_trigger_fires(t, e, signals, ctx),
{
}

/// Only timer triggers (alone or combined) fire on timers.
pub proof fn law_only_timer_triggers_fire_on_timers(t: Trigger, expired: Seq<String>, started: Seq<String>)
    requires
        !(t is TimerExpires || t is TimerStarted || t is AnyOf),
    ensures
        !timer_trigger_fires(t, expired, started),
{
}

/// A reset of a counter that is at its initial value reports nothing and
/// changes nothing.
pub proof fn law_reset_at_initial_value_is_silent(
    c: CounterDefinition,
    st: (Map<Seq<char>, u32>, Seq<GameSignal>),
    timestamp: i64,
)
    requires
        value_of(st.0, c.id@) == c.initial_value,
    ensures
        counter_step(c, st, false, false, true, timestamp) == st,
{
}

// ─── Laws on triggers ────────────────────────────────────────────────────────

/// A signal trigger that fires on some signals fires on any list that holds
/// each of them: more signals never take a firing away, and the order of the
/// signals does not matter.
pub proof fn law_signal_triggers_grow_with_signals(
    t: Trigger,
    fewer: Seq<GameSignal>,
    more: Seq<GameSignal>,
    ctx: FilterView,
)
    requires
        forall|j: int| 0 <= j < fewer.len() ==> more.contains(#[trigger] fewer[j]),
    ensures
        signal_trigger_fires(t, fewer, ctx) ==> signal_trigger_fires(t, more, ctx),
    decreases t,
{
    if signal_trigger_fires(t, fewer, ctx) {
        match t {
            Trigger::AnyOf { conditions } => {
                let i = choose|i: int|
                    0 <= i < conditions@.len() && signal_trigger_fires(
                        #[trigger] conditions@[i],
                        fewer,
                        ctx,
                    );
                assert(decreases_to!(t => t->conditions));
                assert(decreases_to!(conditions => conditions@));
                assert(decreases_to!(conditions@ => conditions@[i]));
                law_signal_triggers_grow_with_signals(conditions@[i], fewer, more, ctx);
            },
            _ => {
                let j = choose|j: int| 0 <= j < fewer.len() && signal_matches(t, #[trigger] fewer[j], ctx);
                assert(more.contains(fewer[j]));
                let k = choose|k: int| 0 <= k < more.len() && more[k] == fewer[j];
                assert(signal_matches(t, more[k], ctx));
            },
        }
    }
}

/// Two lists of the same signals, in any order, fire the same triggers.
pub proof fn law_signal_order_does_not_matter(t: Trigger, a: Seq<GameSignal>, b: Seq<GameSignal>, ctx: FilterView)
    requires
        forall|j: int| 0 <= j < a.len() ==> b.contains(#[trigger] a[j]),
        forall|j: int| 0 <= j < b.len() ==> a.contains(#[trigger] b[j]),
    ensures
        signal_trigger_fires(t, a, ctx) == signal_trigger_fires(t, b, ctx),
{
    law_signal_triggers_grow_with_signals(t, a, b, ctx);
    law_signal_triggers_grow_with_signals(t, b, a, ctx);
}

/// With no signals no trigger fires on signals.
pub proof fn law_no_signals_fire_nothing(t: Trigger, ctx: FilterView)
    ensures
        !signal_trigger_fires(t, Seq::empty(), ctx),
    decreases t,
{
    match t {
        Trigger::AnyOf { conditions } => {
            assert forall|i: int| 0 <= i < conditions@.len() implies !signal_trigger_fires(
                #[trigger] conditions@[i],
                Seq::empty(),
                ctx,
            ) by {
                assert(decreases_to!(t => t->conditions));
                assert(decreases_to!(conditions => conditions@));
                assert(decreases_to!(conditions@ => conditions@[i]));
                law_no_signals_fire_nothing(conditions@[i], ctx);
            }
        },
        _ => {},
    }
}

/// What each kind of trigger fires on among the signals: combat start and
/// end on their signals, a phase change on any phase change, a phase entered
/// on a change to it, a phase ended on a change away from it or on its end
/// signal, a combination on any of its triggers (none when it is empty); the
/// triggers that counters take from events or timers, and those meant for
/// other uses, never fire on signals.
pub proof fn law_signal_trigger_kinds(t: Trigger, signals: Seq<GameSignal>, ctx: FilterView)
    ensures
        t is CombatStart ==> (signal_trigger_fires(t, signals, ctx) <==> exists|j: int|
            0 <= j < signals.len() && #[trigger] signals[j] is CombatStarted),
        t is CombatEnd ==> (signal_trigger_fires(t, signals, ctx) <==> exists|j: int|
            0 <= j < signals.len() && #[trigger] signals[j] is CombatEnded),
        t is AnyPhaseChange ==> (signal_trigger_fires(t, signals, ctx) <==> exists|j: int|
            0 <= j < signals.len() && #[trigger] signals[j] is PhaseChanged),
        t matches Trigger::PhaseEntered { phase_id } ==> (signal_trigger_fires(t, signals, ctx) <==> exists|j: int|
            0 <= j < signals.len() && (#[trigger] signals[j] matches GameSignal::PhaseChanged {
                new_phase,
                ..
            } && new_phase@ == phase_id@)),
        t matches Trigger::PhaseEnded { phase_id } ==> (signal_trigger_fires(t, signals, ctx) <==> exists|j: int|
            0 <= j < signals.len() && {
                ||| #[trigger] signals[j] matches GameSignal::PhaseChanged { old_phase: Some(o), .. } && o@
                    == phase_id@
                ||| signals[j] matches GameSignal::PhaseEndTriggered { phase_id: p } && p@ == phase_id@
            }),
        t matches Trigger::AnyOf { conditions } ==> (signal_trigger_fires(t, signals, ctx) <==> exists|i: int|
            0 <= i < conditions@.len() && signal_trigger_fires(#[trigger] conditions@[i], signals, ctx)),
        t matches Trigger::AnyOf { conditions } && conditions@.len() == 0 ==> !signal_trigger_fires(
            t,
            signals,
            ctx,
        ),
        t is Never || t is TimerExpires || t is TimerStarted || t is AbilityCast || t is EffectApplied
            || t is EffectRemoved || t is TimeElapsed || t is BossHpAbove || t is TargetSet || t is Manual
            ==> !signal_trigger_fires(t, signals, ctx),
{
    if signal_trigger_fires(t, signals, ctx) && !(t is AnyOf) {
        let j = choose|j: int| 0 <= j < signals.len() && signal_matches(t, #[trigger] signals[j], ctx);
        assert(signal_matches(t, signals[j], ctx));
    }
}

/// What each kind of trigger fires on in the event: an ability activation,
/// an applied effect or a removed effect that it names, from and to entities
/// that pass its filters; a combination on any of its triggers; every other
/// kind never fires on the event.
pub proof fn law_event_trigger_kinds(t: Trigger, e: CombatEvent, ctx: FilterView)
    ensures
        t matches Trigger::AbilityCast { abilities, .. } ==> (event_trigger_fires(t, e, ctx) <==> (e.effect.effect_id
            == ABILITY_ACTIVATE && abilities_match(abilities@, e.action.action_id, e.action.name@)
            && event_filters_pass(t, e, ctx))),
        t matches Trigger::EffectApplied { effects, .. } ==> (event_trigger_fires(t, e, ctx) <==> (e.effect.type_id
            == APPLY_EFFECT && abilities_match(effects@, e.effect.effect_id, e.effect.effect_name@)
            && event_filters_pass(t, e, ctx))),
        t matches Trigger::EffectRemoved { effects, .. } ==> (event_trigger_fires(t, e, ctx) <==> (e.effect.type_id
            == REMOVE_EFFECT && abilities_match(effects@, e.effect.effect_id, e.effect.effect_name@)
            && event_filters_pass(t, e, ctx))),
        t matches Trigger::AnyOf { conditions } ==> (event_trigger_fires(t, e, ctx) <==> exists|i: int|
            0 <= i < conditions@.len() && event_trigger_fires(#[trigger] conditions@[i], e, ctx)),
        !(t is AbilityCast || t is EffectApplied || t is EffectRemoved || t is AnyOf) ==> !event_trigger_fires(
            t,
            e,
            ctx,
        ),
{
}

// ─── Laws on one counter ─────────────────────────────────────────────────────

/// The moves of counter `id` that the signals report, as (old value, new
/// value, timestamp), in order.
pub open spec fn reports_of(signals: Seq<GameSignal>, id: Seq<char>) -> Seq<(u32, u32, i64)>
    decreases signals.len(),
{
    if signals.len() == 0 {
        Seq::empty()
    } else {
        let before = reports_of(signals.drop_last(), id);
        match signals.last() {
            GameSignal::CounterChanged { counter_id, old_value, new_value, timestamp } => if counter_id@
                == id {
                before.push((old_value, new_value, timestamp))
            } else {
                before
            },
            _ => before,
        }
    }
}

/// One counter's turn seen from its own value `v`: the value after it and
/// the moves reported, as (old value, new value, timestamp).
pub open spec fn own_step(
    c: CounterDefinition,
    v: u32,
    increment: bool,
    decrement: bool,
    reset: bool,
    timestamp: i64,
) -> (u32, Seq<(u32, u32, i64)>) {
    let v1 = if increment {
        stepped_value(c, v)
    } else {
        v
    };
    let r1: Seq<(u32, u32, i64)> = if increment {
        seq![(v, v1, timestamp)]
    } else {
        Seq::empty()
    };
    let v2 = if decrement {
        decremented(v1)
    } else {
        v1
    };
    let r2 = if decrement {
        r1.push((v1, v2, timestamp))
    } else {
        r1
    };
    if reset && v2 != c.initial_value {
        (c.initial_value, r2.push((v2, c.initial_value, timestamp)))
    } else {
        (v2, r2)
    }
}

proof fn lemma_reports_push(signals: Seq<GameSignal>, x: GameSignal, id: Seq<char>)
    ensures
        reports_of(signals.push(x), id) == match x {
            GameSignal::CounterChanged { counter_id, old_value, new_value, timestamp } => if counter_id@
                == id {
                reports_of(signals, id).push((old_value, new_value, timestamp))
            } else {
                reports_of(signals, id)
            },
            _ => reports_of(signals, id),
        },
{
    assert(signals.push(x).drop_last() =~= signals);
}

proof fn lemma_moved_for(
    st: (Map<Seq<char>, u32>, Seq<GameSignal>),
    name: String,
    new_value: u32,
    timestamp: i64,
    id: Seq<char>,
)
    ensures
        name@ == id ==> value_of(moved(st, name, new_value, timestamp).0, id) == new_value,
        name@ == id ==> reports_of(moved(st, name, new_value, timestamp).1, id) == reports_of(st.1, id).push(
            (value_of(st.0, id), new_value, timestamp),
        ),
        name@ != id ==> value_of(moved(st, name, new_value, timestamp).0, id) == value_of(st.0, id),
        name@ != id ==> reports_of(moved(st, name, new_value, timestamp).1, id) == reports_of(st.1, id),
{
    lemma_reports_push(st.1, change_signal(name, value_of(st.0, name@), new_value, timestamp), id);
}

proof fn lemma_step_for(
    c: CounterDefinition,
    st: (Map<Seq<char>, u32>, Seq<GameSignal>),
    increment: bool,
    decrement: bool,
    reset: bool,
    timestamp: i64,
    id: Seq<char>,
)
    ensures
        c.id@ == id ==> value_of(counter_step(c, st, increment, decrement, reset, timestamp).0, id) == own_step(
            c,
            value_of(st.0, id),
            increment,
            decrement,
            reset,
            timestamp,
        ).0,
        c.id@ == id ==> reports_of(counter_step(c, st, increment, decrement, reset, timestamp).1, id)
            == reports_of(st.1, id) + own_step(c, value_of(st.0, id), increment, decrement, reset, timestamp).1,
        c.id@ != id ==> value_of(counter_step(c, st, increment, decrement, reset, timestamp).0, id)
            == value_of(st.0, id),
        c.id@ != id ==> reports_of(counter_step(c, st, increment, decrement, reset, timestamp).1, id)
            == reports_of(st.1, id),
{
    let st1 = if increment {
        moved(st, c.id, stepped_value(c, value_of(st.0, c.id@)), timestamp)
    } else {
        st
    };
    lemma_moved_for(st, c.id, stepped_value(c, value_of(st.0, c.id@)), timestamp, id);
    let st2 = if decrement {
        moved(st1, c.id, decremented(value_of(st1.0, c.id@)), timestamp)
    } else {
        st1
    };
    lemma_moved_for(st1, c.id, decremented(value_of(st1.0, c.id@)), timestamp, id);
    lemma_moved_for(st2, c.id, c.initial_value, timestamp, id);
    if c.id@ == id {
        let own = own_step(c, value_of(st.0, id), increment, decrement, reset, timestamp);
        assert(reports_of(counter_step(c, st, increment, decrement, reset, timestamp).1, id) =~= reports_of(
            st.1,
            id,
        ) + own.1);
    }
}

proof fn lemma_run_without(
    cs: Seq<CounterDefinition>,
    values: Map<Seq<char>, u32>,
    fires: spec_fn(Trigger) -> bool,
    timestamp: i64,
    id: Seq<char>,
)
    requires
        forall|k: int| 0 <= k < cs.len() ==> (#[trigger] cs[k]).id@ != id,
    ensures
        value_of(counters_run(cs, (values, Seq::empty()), fires, timestamp).0, id) == value_of(values, id),
        reports_of(counters_run(cs, (values, Seq::empty()), fires, timestamp).1, id) == Seq::<
            (u32, u32, i64),
        >::empty(),
    decreases cs.len(),
{
    if cs.len() > 0 {
        let d = cs.drop_last();
        assert forall|k: int| 0 <= k < d.len() implies (#[trigger] d[k]).id@ != id by {
            assert(d[k] == cs[k]);
        }
        lemma_run_without(d, values, fires, timestamp, id);
        let c = cs.last();
        assert(c.id@ != id) by {
            assert(cs[cs.len() - 1].id@ != id);
        }
        lemma_step_for(
            c,
            counters_run(d, (values, Seq::empty()), fires, timestamp),
            fires(c.increment_on),
            c.decrement_on matches Some(t) && fires(t),
            fires(c.reset_on),
            timestamp,
            id,
        );
    } else {
        assert(reports_of(Seq::<GameSignal>::empty(), id) =~= Seq::<(u32, u32, i64)>::empty());
    }
}

/// A counter whose id no other definition of the step shares moves on its
/// own: its value after the step and the moves reported for it are those of
/// its own turn from its value before, whatever the other counters do.
pub proof fn law_counter_moves_on_its_own(
    cs: Seq<CounterDefinition>,
    values: Map<Seq<char>, u32>,
    fires: spec_fn(Trigger) -> bool,
    timestamp: i64,
    k: int,
)
    requires
        0 <= k < cs.len(),
        forall|j: int| 0 <= j < cs.len() && j != k ==> (#[trigger] cs[j]).id@ != cs[k].id@,
    ensures
        ({
            let c = cs[k];
            let run = counters_run(cs, (values, Seq::empty()), fires, timestamp);
            let own = own_step(
                c,
                value_of(values, c.id@),
                fires(c.increment_on),
                c.decrement_on matches Some(d) && fires(d),
                fires(c.reset_on),
                timestamp,
            );
            &&& value_of(run.0, c.id@) == own.0
            &&& reports_of(run.1, c.id@) == own.1
        }),
    decreases cs.len(),
{
    let id = cs[k].id@;
    let d = cs.drop_last();
    let c = cs.last();
    if k == cs.len() - 1 {
        assert forall|j: int| 0 <= j < d.len() implies (#[trigger] d[j]).id@ != id by {
            assert(d[j] == cs[j]);
        }
        lemma_run_without(d, values, fires, timestamp, id);
    } else {
        assert forall|j: int| 0 <= j < d.len() && j != k implies (#[trigger] d[j]).id@ != d[k].id@ by {
            assert(d[j] == cs[j]);
            assert(d[k] == cs[k]);
        }
        assert(d[k] == cs[k]);
        law_counter_moves_on_its_own(d, values, fires, timestamp, k);
        assert(c.id@ != id) by {
            assert(cs[cs.len() - 1] == c);
        }
    }
    lemma_step_for(
        c,
        counters_run(d, (values, Seq::empty()), fires, timestamp),
        fires(c.increment_on),
        c.decrement_on matches Some(t) && fires(t),
        fires(c.reset_on),
        timestamp,
        id,
    );
    if k == cs.len() - 1 {
        let own = own_step(
            c,
            value_of(values, id),
            fires(c.increment_on),
            c.decrement_on matches Some(t) && fires(t),
            fires(c.reset_on),
            timestamp,
        );
        assert(Seq::<(u32, u32, i64)>::empty() + own.1 =~= own.1);
    }
}

/// One counter's turn when one kind of its triggers fires: the increment
/// alone gives one move to the stepped value; the reset alone gives one move
/// back to the initial value, or nothing when it is already there; nothing
/// firing leaves the counter as it is, unreported.
pub proof fn law_single_trigger_turns(c: CounterDefinition, v: u32, timestamp: i64)
    ensures
        own_step(c, v, true, false, false, timestamp) == (
            stepped_value(c, v),
            seq![(v, stepped_value(c, v), timestamp)],
        ),
        v != c.initial_value ==> own_step(c, v, false, false, true, timestamp) == (
            c.initial_value,
            seq![(v, c.initial_value, timestamp)],
        ),
        v == c.initial_value ==> own_step(c, v, false, false, true, timestamp) == (
            v,
            Seq::<(u32, u32, i64)>::empty(),
        ),
        own_step(c, v, false, false, false, timestamp) == (v, Seq::<(u32, u32, i64)>::empty()),
{
    assert(seq![(v, stepped_value(c, v), timestamp)] =~= Seq::<(u32, u32, i64)>::empty().push(
        (v, stepped_value(c, v), timestamp),
    ));
    assert(seq![(v, c.initial_value, timestamp)] =~= Seq::<(u32, u32, i64)>::empty().push(
        (v, c.initial_value, timestamp),
    ));
}

/// In a step, a counter with an id of its own whose increment trigger alone
/// fires moves once, to its stepped value, and is reported once; one whose
/// reset trigger alone fires moves back to its initial value with one report,
/// or stays unreported when it is already there; one with no trigger firing
/// keeps its value and gets no report.
pub proof fn law_counter_step_cases(
    cs: Seq<CounterDefinition>,
    values: Map<Seq<char>, u32>,
    fires: spec_fn(Trigger) -> bool,
    timestamp: i64,
    k: int,
)
    requires
        0 <= k < cs.len(),
        forall|j: int| 0 <= j < cs.len() && j != k ==> (#[trigger] cs[j]).id@ != cs[k].id@,
    ensures
        ({
            let c = cs[k];
            let v = value_of(values, c.id@);
            let run = counters_run(cs, (values, Seq::empty()), fires, timestamp);
            let decrement_fires = c.decrement_on matches Some(d) && fires(d);
            &&& fires(c.increment_on) && !decrement_fires && !fires(c.reset_on) ==> {
                &&& value_of(run.0, c.id@) == stepped_value(c, v)
                &&& reports_of(run.1, c.id@) == seq![(v, stepped_value(c, v), timestamp)]
            }
            &&& !fires(c.increment_on) && !decrement_fires && fires(c.reset_on) && v != c.initial_value ==> {
                &&& value_of(run.0, c.id@) == c.initial_value
                &&& reports_of(run.1, c.id@) == seq![(v, c.initial_value, timestamp)]
            }
            &&& !fires(c.increment_on) && !decrement_fires && fires(c.reset_on) && v == c.initial_value ==> {
                &&& value_of(run.0, c.id@) == v
                &&& reports_of(run.1, c.id@) == Seq::<(u32, u32, i64)>::empty()
            }
            &&& !fires(c.increment_on) && !decrement_fires && !fires(c.reset_on) ==> {
                &&& value_of(run.0, c.id@) == v
                &&& reports_of(run.1, c.id@) == Seq::<(u32, u32, i64)>::empty()
            }
        }),
{
    law_counter_moves_on_its_own(cs, values, fires, timestamp, k);
    law_single_trigger_turns(cs[k], value_of(values, cs[k].id@), timestamp);
}

/// What the counter check answers for each trigger that reads the step's
/// signals (the log event alone never fires them):
/// - a boss-health threshold fires when some boss health signal crosses it
///   downwards (from above it to at or below it) for an NPC its selectors
///   let pass;
/// - an NPC appearance or an entity death fires only on such a signal for an
///   NPC its selectors let pass, so a selector list that passes none of the
///   dead (or new) entities never fires;
/// - a counter target fires when a signal of that counter changes it from
///   another value to the target;
/// - damage and healing fire on a signal of an ability they name, from and
///   to entities that pass their filters.
pub proof fn law_signal_triggers_on_the_step(
    t: Trigger,
    e: CombatEvent,
    signals: Seq<GameSignal>,
    ctx: FilterView,
)
    ensures
        t matches Trigger::BossHpBelow { hp_hundredths, selector } ==> (counter_trigger_fires(t, e, signals, ctx)
            <==> exists|j: int|
            0 <= j < signals.len() && (#[trigger] signals[j] matches GameSignal::BossHpChanged {
                npc_id,
                entity_name,
                old_hp_hundredths,
                new_hp_hundredths,
            } && old_hp_hundredths > hp_hundredths && new_hp_hundredths <= hp_hundredths && entities_match(
                selector@,
                ctx.entities,
                npc_id,
                entity_name@,
            ))),
        t matches Trigger::NpcAppears { selector } ==> (counter_trigger_fires(t, e, signals, ctx) <==> exists|j: int|
            0 <= j < signals.len() && (#[trigger] signals[j] matches GameSignal::NpcFirstSeen { npc_id, entity_name }
                && entities_match(selector@, ctx.entities, npc_id, entity_name@))),
        t matches Trigger::EntityDeath { selector } ==> (counter_trigger_fires(t, e, signals, ctx) <==> exists|j: int|
            0 <= j < signals.len() && (#[trigger] signals[j] matches GameSignal::EntityDeath { npc_id, entity_name }
                && entities_match(selector@, ctx.entities, npc_id, entity_name@))),
        t matches Trigger::EntityDeath { selector } && selector@.len() > 0 && (forall|j: int|
            0 <= j < signals.len() ==> (#[trigger] signals[j] matches GameSignal::EntityDeath { npc_id, entity_name }
                ==> forall|k: int|
                0 <= k < selector@.len() ==> !entity_selected(
                    #[trigger] selector@[k],
                    ctx.entities,
                    npc_id,
                    entity_name@,
                ))) ==> !counter_trigger_fires(t, e, signals, ctx),
        t matches Trigger::CounterReaches { counter_id, value } ==> (counter_trigger_fires(t, e, signals, ctx)
            <==> exists|j: int|
            0 <= j < signals.len() && (#[trigger] signals[j] matches GameSignal::CounterChanged {
                counter_id: changed,
                old_value,
                new_value,
                ..
            } && changed@ == counter_id@ && old_value != value && new_value == value)),
        t matches Trigger::DamageTaken { abilities, .. } ==> (counter_trigger_fires(t, e, signals, ctx) <==> exists|j: int|
            0 <= j < signals.len() && (#[trigger] signals[j] matches GameSignal::DamageTaken {
                ability_id,
                ability_name,
                source_id,
                source_entity_type,
                source_name,
                source_npc_id,
                target_id,
                target_entity_type,
                target_name,
                target_npc_id,
            } && abilities_match(abilities@, ability_id, ability_name@) && filters_pass(
                t,
                ctx.entities,
                source_id,
                source_entity_type,
                source_name@,
                source_npc_id,
                target_id,
                target_entity_type,
                target_name@,
                target_npc_id,
                ctx.local_player_id,
                ctx.current_target_id,
                ctx.boss_entity_ids,
            ))),
        t matches Trigger::HealingTaken { abilities, .. } ==> (counter_trigger_fires(t, e, signals, ctx) <==> exists|j: int|
            0 <= j < signals.len() && (#[trigger] signals[j] matches GameSignal::HealingDone {
                ability_id,
                ability_name,
                source_id,
                source_entity_type,
                source_name,
                source_npc_id,
                target_id,
                target_entity_type,
                target_name,
                target_npc_id,
            } && abilities_match(abilities@, ability_id, ability_name@) && filters_pass(
                t,
                ctx.entities,
                source_id,
                source_entity_type,
                source_name@,
                source_npc_id,
                target_id,
                target_entity_type,
                target_name@,
                target_npc_id,
                ctx.local_player_id,
                ctx.current_target_id,
                ctx.boss_entity_ids,
            ))),
{
    if counter_trigger_fires(t, e, signals, ctx) && !(t is AnyOf) && !(t is AbilityCast || t is EffectApplied
        || t is EffectRemoved) {
        let j = choose|j: int| 0 <= j < signals.len() && signal_matches(t, #[trigger] signals[j], ctx);
        assert(signal_matches(t, signals[j], ctx));
    }
    match t {
        Trigger::EntityDeath { selector } => {
            if counter_trigger_fires(t, e, signals, ctx) {
                let j = choose|j: int| 0 <= j < signals.len() && signal_matches(t, #[trigger] signals[j], ctx);
                assert(signal_matches(t, signals[j], ctx));
                if selector@.len() > 0 {
                    if let GameSignal::EntityDeath { npc_id, entity_name } = signals[j] {
                        let k = choose|k: int|
                            0 <= k < selector@.len() && entity_selected(
                                #[trigger] selector@[k],
                                ctx.entities,
                                npc_id,
                                entity_name@,
                            );
                        assert(entity_selected(selector@[k], ctx.entities, npc_id, entity_name@));
                    }
                }
            }
        },
        _ => {},
    }
}

/// A timer trigger answers to its own kind of timer only: an expiry trigger
/// fires exactly when its timer is among the expired ones, whatever started,
/// and a start trigger exactly when its timer is among the started ones,
/// whatever expired.
pub proof fn law_timer_triggers_read_their_own_list(t: Trigger, expired: Seq<String>, started: Seq<String>)
    ensures
        t matches Trigger::TimerExpires { timer_id } ==> (timer_trigger_fires(t, expired, started) <==> exists|k: int|
            0 <= k < expired.len() && (#[trigger] expired[k])@ == timer_id@),
        t matches Trigger::TimerStarted { timer_id } ==> (timer_trigger_fires(t, expired, started) <==> exists|k: int|
            0 <= k < started.len() && (#[trigger] started[k])@ == timer_id@),
        t is TimerExpires ==> timer_trigger_fires(t, expired, started) == timer_trigger_fires(
            t,
            expired,
            Seq::empty(),
        ),
        t is TimerStarted ==> timer_trigger_fires(t, expired, started) == timer_trigger_fires(
            t,
            Seq::empty(),
            started,
        ),
{
}

} // verus!
