//! Which entity the encounter charts show.
//!
//! A selection held from an earlier encounter is kept when the new encounter
//! has that entity; otherwise the charts fall back to the local player, then
//! to the first player. Clicking the selected entity clears the selection,
//! clicking another selects it. Highlighted effects and the edited list of
//! counters change one entry at a time.

use vstd::prelude::*;
use crate::dsl::CounterDefinition;
use crate::text::text_eq;

verus! {

/// Some name of the list equals `name`.
pub open spec fn names_hold(names: Seq<String>, name: Seq<char>) -> bool {
    exists|i: int| 0 <= i < names.len() && (#[trigger] names[i])@ == name
}

/// The view of an optional string.
pub open spec fn opt_view(o: Option<String>) -> Option<Seq<char>> {
    match o {
        Some(s) => Some(s@),
        None => None,
    }
}

/// The selection after the encounter's players are known: the held one when
/// it is among them; otherwise the local player when among them, else the
/// first player; with no players, the held selection as it was.
pub open spec fn chosen_entity(held: Option<Seq<char>>, players: Seq<String>, local: Option<Seq<char>>) -> Option<
    Seq<char>,
> {
    if players.len() == 0 {
        held
    } else if held matches Some(h) && names_hold(players, h) {
        held
    } else if local matches Some(l) && names_hold(players, l) {
        local
    } else {
        Some(players[0]@)
    }
}

fn find_name(names: &[String], name: &str) -> (r: bool)
    ensures
        r == names_hold(names@, name@),
{
    let n = names.len();
    let mut i: usize = 0;
    while i < n
        invariant
            n == names@.len(),
            i <= n,
            forall|k: int| 0 <= k < i ==> (#[trigger] names@[k])@ != name@,
        decreases n - i,
    {
        if text_eq(names[i].as_str(), name) {
            assert(names@[i as int]@ == name@);
            return true;
        }
        i = i + 1;
    }
    false
}

/// Validates the held selection against the encounter's players, falling
/// back to the local player, then to the first player.
pub fn chart_selection(held: Option<String>, players: &[String], local_player: Option<&str>) -> (r: Option<String>)
    ensures
        opt_view(r) == chosen_entity(
            opt_view(held),
            players@,
            match local_player {
                Some(l) => Some(l@),
                None => None,
            },
        ),
{
    if players.len() == 0 {
        return held;
    }
    let keep = match &held {
        Some(h) => find_name(players, h.as_str()),
        None => false,
    };
    if keep {
        return held;
    }
    if let Some(l) = local_player {
        if find_name(players, l) {
            return Some(l.to_owned());
        }
    }
    Some(players[0].clone())
}

/// Clicking an entity in the list: the selected one is deselected, another
/// one becomes the selection.
pub fn toggle_selection(current: Option<String>, clicked: String) -> (r: Option<String>)
    ensures
        opt_view(current) == Some(clicked@) ==> r is None,
        opt_view(current) != Some(clicked@) ==> opt_view(r) == Some(clicked@),
{
    let same = match &current {
        Some(c) => text_eq(c.as_str(), clicked.as_str()),
        None => false,
    };
    if same {
        None
    } else {
        Some(clicked)
    }
}

// ─── Highlighted effects ─────────────────────────────────────────────────────

/// The number of highlight colors; effects take them in turn.
pub const EFFECT_COLOR_COUNT: usize = 6;

/// `i` is the first position of effect `id` in the highlighted list.
pub open spec fn first_effect_at(effects: Seq<(i64, usize)>, id: i64, i: int) -> bool {
    0 <= i < effects.len() && effects[i].0 == id && forall|j: int| 0 <= j < i ==> (#[trigger] effects[j]).0 != id
}

/// Clicking an effect: a highlighted effect stops being highlighted; another
/// one is highlighted with the next color in turn (colors by index, the
/// number of highlighted effects modulo the number of colors).
pub fn toggle_effect(effects: &mut Vec<(i64, usize)>, effect_id: i64)
    ensures
        (exists|i: int| 0 <= i < old(effects)@.len() && (#[trigger] old(effects)@[i]).0 == effect_id)
            ==> exists|i: int| #[trigger] first_effect_at(old(effects)@, effect_id, i) && final(effects)@ == old(
            effects,
        )@.remove(i),
        !(exists|i: int| 0 <= i < old(effects)@.len() && (#[trigger] old(effects)@[i]).0 == effect_id)
            ==> final(effects)@ == old(effects)@.push((effect_id, (old(effects)@.len() % (EFFECT_COLOR_COUNT as nat)) as usize)),
{
    let n = effects.len();
    let mut i: usize = 0;
    while i < n
        invariant
            n == effects@.len(),
            effects@ == old(effects)@,
            i <= n,
            forall|j: int| 0 <= j < i ==> (#[trigger] effects@[j]).0 != effect_id,
        decreases n - i,
    {
        if effects[i].0 == effect_id {
            assert(first_effect_at(effects@, effect_id, i as int));
            effects.remove(i);
            return;
        }
        i = i + 1;
    }
    let color = n % EFFECT_COLOR_COUNT;
    effects.push((effect_id, color));
}

// ─── The edited list of counters ─────────────────────────────────────────────

/// `i` is the first position of a counter with id `id`.
pub open spec fn first_counter_at(list: Seq<CounterDefinition>, id: Seq<char>, i: int) -> bool {
    0 <= i < list.len() && list[i].id@ == id && forall|j: int| 0 <= j < i ==> (#[trigger] list[j]).id@ != id
}

/// A saved counter replaces the first counter of the list with its id; the
/// result tells whether there was one (the list is left as it was if not).
pub fn replace_counter(list: &mut Vec<CounterDefinition>, updated: CounterDefinition) -> (found: bool)
    ensures
        found == exists|i: int| 0 <= i < old(list)@.len() && (#[trigger] old(list)@[i]).id@ == updated.id@,
        found ==> exists|i: int| #[trigger] first_counter_at(old(list)@, updated.id@, i) && final(list)@ == old(
            list,
        )@.update(i, updated),
        !found ==> final(list)@ == old(list)@,
{
    let n = list.len();
    let mut i: usize = 0;
    while i < n
        invariant
            n == list@.len(),
            list@ == old(list)@,
            i <= n,
            forall|j: int| 0 <= j < i ==> (#[trigger] list@[j]).id@ != updated.id@,
        decreases n - i,
    {
        if text_eq(list[i].id.as_str(), updated.id.as_str()) {
            assert(first_counter_at(list@, updated.id@, i as int));
            list.set(i, updated);
            return true;
        }
        i = i + 1;
    }
    false
}

/// The counters to keep when the counter with id `id` is deleted.
pub open spec fn other_than(id: Seq<char>) -> spec_fn(CounterDefinition) -> bool {
    |c: CounterDefinition| c.id@ != id
}

/// A deleted counter leaves the list: every counter with its id goes, the
/// others stay in order.
pub fn remove_counter(list: Vec<CounterDefinition>, id: &str) -> (r: Vec<CounterDefinition>)
    ensures
        r@ == list@.filter(other_than(id@)),
{
    let ghost all = list@;
    let mut rest = list;
    let mut kept: Vec<CounterDefinition> = Vec::new();
    let ghost mut k: int = 0;
    while rest.len() > 0
        invariant
            0 <= k <= all.len(),
            rest@ == all.skip(k),
            kept@ == all.take(k).filter(other_than(id@)),
        decreases rest@.len(),
    {
        let c = rest.remove(0);
        proof {
            assert(c == all[k]);
            assert(all.take(k + 1).drop_last() =~= all.take(k));
            assert(all.take(k + 1).last() == all[k]);
            reveal(Seq::filter);
        }
        if !text_eq(c.id.as_str(), id) {
            kept.push(c);
        }
        proof {
            assert(rest@ =~= all.skip(k + 1));
            k = k + 1;
        }
    }
    assert(all.take(k) =~= all);
    kept
}

} // verus!
