use baras::encounter::PhaseType;
use baras::summary::{EncounterHistory, EncounterSummary, after_last_occurrence, parse_u32};

fn imported(id: u64, name: &str, boss: Option<&str>, phase_start: bool) -> EncounterSummary {
    EncounterSummary {
        encounter_id: id,
        display_name: name.to_string(),
        encounter_type: PhaseType::Raid,
        start_time: None,
        end_time: None,
        duration_seconds: 0,
        success: true,
        area_name: "Dread Fortress".to_string(),
        difficulty: None,
        boss_name: boss.map(|b| b.to_string()),
        is_phase_start: phase_start,
        npc_names: Vec::new(),
        area_entered_line: None,
        event_start_line: None,
        event_end_line: None,
        parsely_link: None,
    }
}

#[test]
fn boss_pulls_are_numbered_per_boss() {
    let mut h = EncounterHistory::new();
    assert_eq!(h.generate_name(PhaseType::Raid, Some("Brontes")), "Brontes - 1");
    assert_eq!(h.generate_name(PhaseType::Raid, Some("Brontes")), "Brontes - 2");
    assert_eq!(h.generate_name(PhaseType::Raid, Some("Styrak")), "Styrak - 1");
    assert_eq!(h.peek_pull_count("Brontes"), 3);
    assert_eq!(h.peek_pull_count("Nobody"), 1);
}

#[test]
fn trash_pulls_are_numbered_with_their_label() {
    let mut h = EncounterHistory::new();
    assert_eq!(h.generate_name(PhaseType::Raid, None), "Raid Trash 1");
    assert_eq!(h.generate_name(PhaseType::Flashpoint, None), "Flashpoint Trash 2");
    assert_eq!(h.generate_name(PhaseType::DummyParse, None), "Dummy Parse 3");
    assert_eq!(h.generate_name(PhaseType::PvP, None), "PvP Match 4");
    assert_eq!(h.generate_name(PhaseType::OpenWorld, None), "Open World 5");
    assert_eq!(h.peek_trash_count(), 6);
}

#[test]
fn new_area_restarts_numbering() {
    let mut h = EncounterHistory::new();
    assert!(h.check_area_change(7));
    assert_eq!(h.generate_name(PhaseType::Raid, Some("Brontes")), "Brontes - 1");
    assert_eq!(h.generate_name(PhaseType::Raid, None), "Raid Trash 1");
    assert!(!h.check_area_change(7));
    assert_eq!(h.peek_pull_count("Brontes"), 2);
    assert!(h.check_area_change(8));
    assert!(!h.check_area_change(8));
    assert_eq!(h.peek_pull_count("Brontes"), 1);
    assert_eq!(h.peek_trash_count(), 1);
}

#[test]
fn restore_generation_keeps_counts() {
    let mut h = EncounterHistory::new();
    h.generate_name(PhaseType::Raid, Some("Brontes"));
    h.restore_generation(3);
    assert_eq!(h.peek_pull_count("Brontes"), 2);
    assert!(!h.check_area_change(3));
    assert_eq!(h.peek_pull_count("Brontes"), 2);
}

#[test]
fn rebuild_reads_counts_of_current_phase() {
    let mut h = EncounterHistory::new();
    h.add(imported(1, "Brontes - 4", Some("Brontes"), true));
    h.add(imported(2, "Raid Trash 9", None, false));
    h.add(imported(3, "Styrak - 2", Some("Styrak"), true));
    h.add(imported(4, "Raid Trash 3", None, false));
    h.add(imported(5, "Styrak - 1", Some("Styrak"), false));
    h.add(imported(6, "Raid Trash", None, false));
    h.rebuild_pull_counts();
    // Only the phase that starts at summary 3 counts
    assert_eq!(h.peek_pull_count("Brontes"), 1);
    assert_eq!(h.peek_pull_count("Styrak"), 3);
    assert_eq!(h.peek_trash_count(), 4);
}

#[test]
fn rebuild_continues_live_numbering() {
    let mut live = EncounterHistory::new();
    let mut names = Vec::new();
    names.push((live.generate_name(PhaseType::Flashpoint, Some("Boss - Two")), Some("Boss - Two")));
    names.push((live.generate_name(PhaseType::Flashpoint, None), None));
    names.push((live.generate_name(PhaseType::Flashpoint, Some("Boss - Two")), Some("Boss - Two")));
    names.push((live.generate_name(PhaseType::Flashpoint, None), None));
    let mut restored = EncounterHistory::new();
    for (i, (name, boss)) in names.iter().enumerate() {
        restored.add(imported(i as u64, name, *boss, i == 0));
    }
    restored.rebuild_pull_counts();
    assert_eq!(restored.peek_pull_count("Boss - Two"), live.peek_pull_count("Boss - Two"));
    assert_eq!(restored.peek_trash_count(), live.peek_trash_count());
    assert_eq!(
        restored.generate_name(PhaseType::Flashpoint, Some("Boss - Two")),
        live.generate_name(PhaseType::Flashpoint, Some("Boss - Two"))
    );
}

#[test]
fn parsely_link_goes_to_first_matching_summary() {
    let mut h = EncounterHistory::new();
    h.add(imported(1, "A - 1", Some("A"), true));
    h.add(imported(2, "A - 2", Some("A"), false));
    h.add(imported(2, "A - 3", Some("A"), false));
    assert!(h.set_parsely_link(2, "https://parsely.io/x".to_string()));
    assert!(!h.set_parsely_link(9, "nope".to_string()));
    let s = h.summaries();
    assert_eq!(s[0].parsely_link, None);
    assert_eq!(s[1].parsely_link.as_deref(), Some("https://parsely.io/x"));
    assert_eq!(s[2].parsely_link, None);
}

#[test]
fn clear_forgets_everything() {
    let mut h = EncounterHistory::new();
    h.add(imported(1, "A - 1", Some("A"), true));
    h.generate_name(PhaseType::Raid, Some("A"));
    h.generate_name(PhaseType::Raid, None);
    h.check_area_change(4);
    h.generate_name(PhaseType::Raid, None);
    h.clear();
    assert!(h.summaries().is_empty());
    assert_eq!(h.peek_pull_count("A"), 1);
    assert_eq!(h.peek_trash_count(), 1);
    assert!(h.check_area_change(4));
}

#[test]
fn name_parsing_helpers() {
    assert_eq!(after_last_occurrence("Boss - Two - 3", " - "), "3");
    assert_eq!(after_last_occurrence("no separator", " - "), "no separator");
    assert_eq!(after_last_occurrence("Raid Trash 12", " "), "12");
    assert_eq!(parse_u32("12"), Some(12));
    assert_eq!(parse_u32("+7"), Some(7));
    assert_eq!(parse_u32("4294967295"), Some(u32::MAX));
    assert_eq!(parse_u32("4294967296"), None);
    assert_eq!(parse_u32(""), None);
    assert_eq!(parse_u32("+"), None);
    assert_eq!(parse_u32("1a"), None);
    assert_eq!(parse_u32("-1"), None);
}
