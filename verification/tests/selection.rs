use baras::dsl::{CounterDefinition, default_counter};
use baras::selection::{
    EFFECT_COLOR_COUNT, chart_selection, remove_counter, replace_counter, toggle_effect, toggle_selection,
};

fn names(list: &[&str]) -> Vec<String> {
    list.iter().map(|s| s.to_string()).collect()
}

#[test]
fn held_selection_survives_when_present() {
    let players = names(&["Ann", "Bob", "Cid"]);
    assert_eq!(chart_selection(Some("Bob".to_string()), &players, Some("Cid")), Some("Bob".to_string()));
}

#[test]
fn falls_back_to_local_player_then_first() {
    let players = names(&["Ann", "Bob", "Cid"]);
    assert_eq!(chart_selection(Some("Zed".to_string()), &players, Some("Cid")), Some("Cid".to_string()));
    assert_eq!(chart_selection(None, &players, Some("Cid")), Some("Cid".to_string()));
    assert_eq!(chart_selection(None, &players, Some("Nobody")), Some("Ann".to_string()));
    assert_eq!(chart_selection(None, &players, None), Some("Ann".to_string()));
}

#[test]
fn no_players_keeps_the_held_selection() {
    assert_eq!(chart_selection(Some("Zed".to_string()), &[], Some("Cid")), Some("Zed".to_string()));
    assert_eq!(chart_selection(None, &[], Some("Cid")), None);
}

#[test]
fn clicking_toggles() {
    assert_eq!(toggle_selection(Some("Ann".to_string()), "Ann".to_string()), None);
    assert_eq!(toggle_selection(Some("Ann".to_string()), "Bob".to_string()), Some("Bob".to_string()));
    assert_eq!(toggle_selection(None, "Bob".to_string()), Some("Bob".to_string()));
}

#[test]
fn effects_toggle_with_colors_in_turn() {
    let mut effects: Vec<(i64, usize)> = Vec::new();
    toggle_effect(&mut effects, 10);
    toggle_effect(&mut effects, 20);
    assert_eq!(effects, vec![(10, 0), (20, 1)]);
    toggle_effect(&mut effects, 10);
    assert_eq!(effects, vec![(20, 1)]);
    for id in [30, 40, 50, 60, 70] {
        toggle_effect(&mut effects, id);
    }
    assert_eq!(effects, vec![(20, 1), (30, 1), (40, 2), (50, 3), (60, 4), (70, 5)]);
    toggle_effect(&mut effects, 80);
    assert_eq!(effects[6], (80, 0));
    assert_eq!(EFFECT_COLOR_COUNT, 6);
}

fn counter(id: &str, name: &str) -> CounterDefinition {
    let mut c = default_counter(name.to_string());
    c.id = id.to_string();
    c
}

#[test]
fn saved_counters_replace_the_first_with_their_id() {
    let mut list = vec![counter("a", "first"), counter("b", "second"), counter("a", "third")];
    assert!(replace_counter(&mut list, counter("a", "edited")));
    let names: Vec<&str> = list.iter().map(|c| c.name.as_str()).collect();
    assert_eq!(names, vec!["edited", "second", "third"]);
    assert!(!replace_counter(&mut list, counter("z", "new")));
    assert_eq!(list.len(), 3);
}

#[test]
fn deleted_counters_leave_the_list() {
    let list = vec![counter("a", "first"), counter("b", "second"), counter("a", "third")];
    let rest = remove_counter(list, "a");
    let names: Vec<&str> = rest.iter().map(|c| c.name.as_str()).collect();
    assert_eq!(names, vec!["second"]);
    assert!(remove_counter(Vec::new(), "a").is_empty());
}
