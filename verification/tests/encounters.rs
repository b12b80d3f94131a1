use std::collections::HashSet;

use baras::combat::{
    AreaInfo, AreaType, BossDefinition, BossInfo, CombatEncounter, ContentType, CounterValues, Difficulty,
    GameData, NpcInfo,
};
use baras::encounter::{CombatTimeData, EntityType, PhaseType};
use baras::summary::{
    EncounterHistory, classify_encounter, create_encounter_summary, determine_success, npc_name_list,
    MetricRow, PlayerSeen, challenges_kept, metric_rows_kept, order_by_value_desc, summarize_encounter,
};

fn npc(name: &str, entity_type: EntityType, is_boss: bool, class_id: i64, seen: Option<i64>) -> NpcInfo {
    NpcInfo { name: name.to_string(), entity_type, is_boss, class_id, first_seen_at: seen }
}

fn definition(name: &str, area_type: AreaType, victory: bool, difficulties: &[&str]) -> BossDefinition {
    BossDefinition {
        name: name.to_string(),
        area_type,
        has_victory_trigger: victory,
        victory_trigger_difficulties: difficulties.iter().map(|d| d.to_string()).collect(),
        counters: Vec::new(),
        entities: Vec::new(),
    }
}

fn encounter(npcs: Vec<NpcInfo>) -> CombatEncounter {
    CombatEncounter {
        id: 42,
        npcs,
        boss_definitions: Vec::new(),
        active_boss_idx: None,
        difficulty: None,
        victory_triggered: false,
        likely_wipe: false,
        enter_combat_time: Some(0),
        effective_end_time: Some(125_000),
        duration_seconds: Some(125),
        area_id: None,
        difficulty_id: None,
        area_name: None,
        difficulty_name: None,
        area_entered_line: None,
        first_event_line: Some(10),
        last_event_line: Some(99),
        counters: CounterValues::new(),
        boss_entity_ids: HashSet::new(),
        targets: Vec::new(),
    }
}

fn game() -> GameData {
    GameData {
        bosses: vec![
            BossInfo { class_id: 100, boss: "Brontes".to_string(), content_type: ContentType::Operation },
            BossInfo { class_id: 200, boss: "Training Dummy".to_string(), content_type: ContentType::TrainingDummy },
            BossInfo { class_id: 300, boss: "Styrak".to_string(), content_type: ContentType::Operation },
        ],
        pvp_area_ids: vec![555],
        difficulties: vec![
            Difficulty { difficulty_id: 1, group_size: 8, config_key: "story_8".to_string() },
            Difficulty { difficulty_id: 2, group_size: 16, config_key: "hm_16".to_string() },
            Difficulty { difficulty_id: 3, group_size: 4, config_key: "vet_4".to_string() },
            Difficulty { difficulty_id: 4, group_size: 1, config_key: "solo".to_string() },
        ],
    }
}

fn area(name: &str) -> AreaInfo {
    AreaInfo {
        area_id: 1,
        area_name: name.to_string(),
        difficulty_id: 1,
        difficulty_name: "8 Player Story".to_string(),
        entered_at_line: Some(3),
    }
}

#[test]
fn classification_by_group_size_and_area() {
    let g = game();
    let e = encounter(Vec::new());
    assert_eq!(classify_encounter(&e, 1, 1, &g).0, PhaseType::Raid);
    assert_eq!(classify_encounter(&e, 1, 2, &g).0, PhaseType::Raid);
    assert_eq!(classify_encounter(&e, 1, 3, &g).0, PhaseType::Flashpoint);
    assert_eq!(classify_encounter(&e, 1, 4, &g).0, PhaseType::OpenWorld);
    assert_eq!(classify_encounter(&e, 1, 99, &g).0, PhaseType::OpenWorld);
    assert_eq!(classify_encounter(&e, 555, 1, &g).0, PhaseType::PvP);
    assert!(classify_encounter(&e, 1, 1, &g).1.is_none());
}

#[test]
fn first_seen_boss_is_primary_and_dummies_win() {
    let g = game();
    let e = encounter(vec![
        npc("Adds", EntityType::Npc, false, 7, Some(1)),
        npc("Styrak", EntityType::Npc, true, 300, Some(50)),
        npc("Brontes", EntityType::Npc, true, 100, Some(20)),
    ]);
    let (phase, boss) = classify_encounter(&e, 1, 1, &g);
    assert_eq!(phase, PhaseType::Raid);
    assert_eq!(boss.map(|b| b.boss.as_str()), Some("Brontes"));

    let dummy = encounter(vec![npc("Training Dummy", EntityType::Npc, true, 200, Some(5))]);
    assert_eq!(classify_encounter(&dummy, 555, 1, &g).0, PhaseType::DummyParse);

    let mut by_definition = encounter(Vec::new());
    by_definition.boss_definitions.push(definition("Dummy", AreaType::TrainingDummy, false, &[]));
    by_definition.active_boss_idx = Some(0);
    assert_eq!(classify_encounter(&by_definition, 1, 2, &g).0, PhaseType::DummyParse);

    let unflagged = encounter(vec![npc("Brontes", EntityType::Npc, false, 100, Some(5))]);
    assert!(classify_encounter(&unflagged, 1, 1, &g).1.is_none());
}

#[test]
fn success_follows_victory_trigger_or_wipe_heuristic() {
    let mut e = encounter(Vec::new());
    assert!(determine_success(&e));
    e.likely_wipe = true;
    assert!(!determine_success(&e));

    e.boss_definitions.push(definition("Dread Master", AreaType::Operation, true, &[]));
    e.active_boss_idx = Some(0);
    assert!(!determine_success(&e));
    e.victory_triggered = true;
    assert!(determine_success(&e));

    let mut hm_only = encounter(Vec::new());
    hm_only.boss_definitions.push(definition("Dread Master", AreaType::Operation, true, &["hm_16"]));
    hm_only.active_boss_idx = Some(0);
    hm_only.difficulty = Some(Difficulty { difficulty_id: 1, group_size: 8, config_key: "story_8".to_string() });
    assert!(determine_success(&hm_only));
    hm_only.difficulty = Some(Difficulty { difficulty_id: 2, group_size: 16, config_key: "hm_16".to_string() });
    assert!(!determine_success(&hm_only));
    hm_only.difficulty = None;
    assert!(determine_success(&hm_only));
}

#[test]
fn npc_names_are_counted_and_sorted() {
    let npcs = vec![
        npc("Trooper", EntityType::Npc, false, 1, None),
        npc("Bowdaar", EntityType::Companion, false, 2, None),
        npc("Apex", EntityType::Npc, true, 3, None),
        npc("Trooper", EntityType::Npc, false, 1, None),
        npc("Trooper", EntityType::Npc, false, 1, None),
        npc("Zed", EntityType::Player, false, 4, None),
    ];
    assert_eq!(npc_name_list(&npcs), vec!["Apex".to_string(), "Trooper (3)".to_string(), "Zed".to_string()]);
    assert!(npc_name_list(&Vec::new()).is_empty());
}

#[test]
fn summary_of_a_boss_pull() {
    let g = game();
    let mut history = EncounterHistory::new();
    let mut e = encounter(vec![npc("Brontes", EntityType::Npc, true, 100, Some(0))]);
    e.area_name = Some("Dread Fortress".to_string());
    let s = create_encounter_summary(&e, &area("Somewhere Else"), &mut history, &g).unwrap();
    assert_eq!(s.encounter_id, 42);
    assert_eq!(s.display_name, "Brontes - 1");
    assert_eq!(s.encounter_type, PhaseType::Raid);
    assert_eq!(s.start_time.as_deref(), Some("1970-01-01T00:00:00"));
    assert_eq!(s.end_time.as_deref(), Some("1970-01-01T00:02:05"));
    assert_eq!(s.duration_seconds, 125);
    assert!(s.success);
    assert_eq!(s.area_name, "Dread Fortress");
    assert_eq!(s.difficulty.as_deref(), Some("8 Player Story"));
    assert_eq!(s.boss_name.as_deref(), Some("Brontes"));
    assert!(s.is_phase_start);
    assert_eq!(s.npc_names, vec!["Brontes".to_string()]);
    assert_eq!(s.area_entered_line, Some(3));
    assert_eq!(s.event_start_line, Some(10));
    assert_eq!(s.event_end_line, Some(99));
    assert_eq!(s.parsely_link, None);
}

#[test]
fn summaries_number_pulls_within_an_area() {
    let g = game();
    let mut history = EncounterHistory::new();
    let boss = encounter(vec![npc("Brontes", EntityType::Npc, true, 100, Some(0))]);
    let trash = encounter(vec![npc("Droid", EntityType::Npc, false, 9, Some(0))]);
    let here = area("Dread Fortress");
    let first = create_encounter_summary(&boss, &here, &mut history, &g).unwrap();
    history.add(first);
    let second = create_encounter_summary(&trash, &here, &mut history, &g).unwrap();
    assert_eq!(second.display_name, "Raid Trash 1");
    assert!(!second.is_phase_start);
    history.add(second);
    let third = create_encounter_summary(&boss, &here, &mut history, &g).unwrap();
    assert_eq!(third.display_name, "Brontes - 2");
    history.add(third);
    let elsewhere = create_encounter_summary(&boss, &area("Dread Palace"), &mut history, &g).unwrap();
    assert_eq!(elsewhere.display_name, "Brontes - 1");
    assert!(elsewhere.is_phase_start);
}

#[test]
fn summary_uses_active_definition_name_and_skips_unstarted() {
    let g = game();
    let mut history = EncounterHistory::new();
    let mut e = encounter(vec![npc("Brontes", EntityType::Npc, true, 100, Some(0))]);
    e.boss_definitions.push(definition("Council", AreaType::Operation, false, &[]));
    e.active_boss_idx = Some(0);
    e.difficulty_name = Some("16 Player Master".to_string());
    e.enter_combat_time = Some(1_700_000_000_123);
    e.effective_end_time = None;
    e.duration_seconds = None;
    let s = create_encounter_summary(&e, &area("Dread Fortress"), &mut history, &g).unwrap();
    assert_eq!(s.display_name, "Council - 1");
    assert_eq!(s.start_time.as_deref(), Some("2023-11-14T22:13:20"));
    assert_eq!(s.end_time, None);
    assert_eq!(s.duration_seconds, 0);
    assert_eq!(s.difficulty.as_deref(), Some("16 Player Master"));

    e.enter_combat_time = None;
    assert!(create_encounter_summary(&e, &area("Dread Fortress"), &mut history, &g).is_none());
    assert_eq!(history.peek_pull_count("Council"), 2);

    let mut no_difficulty = area("Dread Fortress");
    no_difficulty.difficulty_name = String::new();
    let plain = encounter(Vec::new());
    let s = create_encounter_summary(&plain, &no_difficulty, &mut history, &g).unwrap();
    assert_eq!(s.difficulty, None);
}

#[test]
fn combat_time_update_reports_changes() {
    let mut data = CombatTimeData::default();
    assert_eq!(data.encounter_time_secs, 0);
    assert!(data.update(CombatTimeData { encounter_time_secs: 5 }));
    assert!(!data.update(CombatTimeData { encounter_time_secs: 5 }));
    assert_eq!(data.encounter_time_secs, 5);
    assert_eq!(PhaseType::default(), PhaseType::OpenWorld);
}

#[test]
fn summary_takes_the_given_times() {
    let g = game();
    let mut history = EncounterHistory::new();
    let e = encounter(vec![npc("Droid", EntityType::Npc, false, 9, Some(0))]);
    let s = summarize_encounter(&e, &area("Dread Fortress"), &mut history, &g, Some("start".to_string()), None);
    assert_eq!(s.start_time.as_deref(), Some("start"));
    assert_eq!(s.end_time, None);
    assert_eq!(s.display_name, "Raid Trash 1");
    assert_eq!(s.npc_names, vec!["Droid".to_string()]);
    assert_eq!(history.peek_trash_count(), 2);
}

#[test]
fn a_full_counter_of_another_boss_does_not_block_summaries() {
    let g = game();
    let mut history = EncounterHistory::new();
    let mut imported = create_encounter_summary(
        &encounter(vec![npc("Brontes", EntityType::Npc, true, 100, Some(0))]),
        &area("Dread Fortress"),
        &mut history,
        &g,
    )
    .unwrap();
    imported.display_name = "Styrak - 4294967295".to_string();
    imported.boss_name = Some("Styrak".to_string());
    history.add(imported);
    history.rebuild_pull_counts();
    let trash = encounter(vec![npc("Droid", EntityType::Npc, false, 9, Some(0))]);
    let s = create_encounter_summary(&trash, &area("Dread Fortress"), &mut history, &g).unwrap();
    assert_eq!(s.display_name, "Raid Trash 1");
    let boss = encounter(vec![npc("Brontes", EntityType::Npc, true, 100, Some(0))]);
    let b = create_encounter_summary(&boss, &area("Dread Fortress"), &mut history, &g).unwrap();
    assert_eq!(b.display_name, "Brontes - 1");
    // A new area resets every count, the full one included
    let elsewhere = create_encounter_summary(&boss, &area("Dread Palace"), &mut history, &g).unwrap();
    assert_eq!(elsewhere.display_name, "Brontes - 1");
}

#[test]
fn kept_players_challenges_and_contribution_order() {
    let rows = vec![
        MetricRow { entity_id: 1, entity_type: EntityType::Player },
        MetricRow { entity_id: 2, entity_type: EntityType::Npc },
        MetricRow { entity_id: 3, entity_type: EntityType::Companion },
        MetricRow { entity_id: 4, entity_type: EntityType::Player },
        MetricRow { entity_id: 5, entity_type: EntityType::Player },
    ];
    let players = vec![
        PlayerSeen { entity_id: 1, last_seen_at: Some(100) },
        PlayerSeen { entity_id: 2, last_seen_at: Some(100) },
        PlayerSeen { entity_id: 3, last_seen_at: Some(50) },
        PlayerSeen { entity_id: 4, last_seen_at: None },
        PlayerSeen { entity_id: 3, last_seen_at: Some(200) },
    ];
    assert_eq!(metric_rows_kept(&rows, &players, Some(60)), vec![0]);
    assert_eq!(metric_rows_kept(&rows, &players, None), vec![0, 2, 3]);
    assert_eq!(challenges_kept(&[0, 3, 0, 1]), vec![1, 3]);
    assert_eq!(order_by_value_desc(&[5, 9, 5, -1, 9]), vec![1, 4, 0, 2, 3]);
    assert!(order_by_value_desc(&[]).is_empty());
}

#[test]
fn naming_can_be_tested_first() {
    let mut history = EncounterHistory::new();
    assert!(history.can_name_next(None));
    assert!(history.can_name_next(Some("Brontes")));
    let mut full = create_encounter_summary(
        &encounter(vec![npc("Brontes", EntityType::Npc, true, 100, Some(0))]),
        &area("Dread Fortress"),
        &mut history,
        &game(),
    )
    .unwrap();
    full.display_name = "Styrak - 4294967295".to_string();
    full.boss_name = Some("Styrak".to_string());
    history.add(full);
    history.rebuild_pull_counts();
    assert!(!history.can_name_next(Some("Styrak")));
    assert!(history.can_name_next(Some("Brontes")));
}
