//! Encounter history tracking and naming
//!
//! Keeps the summaries of the encounters of the current log file session,
//! numbers boss pulls and trash pulls within an area ("phase"), and restores
//! that numbering from imported summaries.

use vstd::prelude::*;
use vstd::string::*;
use crate::encounter::{EntityType, PhaseType};
use crate::combat::{
    AreaInfo, AreaType, BossInfo, CombatEncounter, ContentType, Difficulty, BossDefinition, GameData, NpcInfo,
    boss_index, difficulty_index, lemma_boss_index_bounds,
};
use crate::names::{NameCounts, name_count_entries};
use crate::text::{
    all_digits, digits_value, is_digit, lemma_digit_char, lemma_nat_digits, nat_digits, push_char,
    push_decimal, push_str, sort_texts, string_views, texts_sorted,
};

verus! {

/// Summary of a completed encounter with computed metrics
#[derive(Debug, Clone)]
pub struct EncounterSummary {
    pub encounter_id: u64,
    pub display_name: String,
    pub encounter_type: PhaseType,
    /// ISO 8601 formatted start time (or None if unknown)
    pub start_time: Option<String>,
    /// ISO 8601 formatted end time (or None if unknown)
    pub end_time: Option<String>,
    pub duration_seconds: i64,
    pub success: bool,
    pub area_name: String,
    pub difficulty: Option<String>,
    pub boss_name: Option<String>,
    /// True if this encounter starts a new phase (area change)
    pub is_phase_start: bool,
    /// Names of NPC enemies in the encounter
    pub npc_names: Vec<String>,
    /// Line number of the most recent AreaEntered event before this encounter
    pub area_entered_line: Option<u64>,
    /// First line of events for this encounter (after previous encounter ended)
    pub event_start_line: Option<u64>,
    /// Last line of events for this encounter (includes grace period)
    pub event_end_line: Option<u64>,
    /// Link to the uploaded encounter on Parsely (set after successful upload)
    pub parsely_link: Option<String>,
}

// ─── Boss pull counts ────────────────────────────────────────────────────────

/// The table with no boss recorded.
pub open spec fn no_boss_pulls() -> Map<Seq<char>, u32> {
    Map::empty()
}

// ─── Name parsing ────────────────────────────────────────────────────────────

/// `p` occurs in `s` starting at index `i`.
pub open spec fn occurs_at(s: Seq<char>, p: Seq<char>, i: int) -> bool {
    0 <= i && i + p.len() <= s.len() && s.subrange(i, i + p.len()) == p
}

/// The greatest index `i <= k` at which `p` occurs in `s`, or `-1`.
pub open spec fn last_occurrence_upto(s: Seq<char>, p: Seq<char>, k: int) -> int
    decreases k + 1,
{
    if k < 0 {
        -1
    } else if occurs_at(s, p, k) {
        k
    } else {
        last_occurrence_upto(s, p, k - 1)
    }
}

/// What follows the last occurrence of the non-empty pattern `p` in `s`, or
/// all of `s` when `p` does not occur (`s.rsplit(p).next()`).
pub open spec fn after_last(s: Seq<char>, p: Seq<char>) -> Seq<char> {
    let i = last_occurrence_upto(s, p, s.len() - p.len());
    if i < 0 {
        s
    } else {
        s.skip(i + p.len())
    }
}

/// `s` read as a `u32` the way `str::parse::<u32>` reads it: an optional `+`
/// followed by at least one digit, the value fitting in 32 bits.
pub open spec fn parsed_u32(s: Seq<char>) -> Option<u32> {
    let d = if s.len() > 0 && s[0] == '+' {
        s.skip(1)
    } else {
        s
    };
    if d.len() > 0 && all_digits(d) && digits_value(d) <= u32::MAX {
        Some(digits_value(d) as u32)
    } else {
        None
    }
}

/// The separator between a boss name and its pull number.
pub open spec fn boss_separator() -> Seq<char> {
    seq![' ', '-', ' ']
}

fn occurs_here(s: &str, p: &str, i: usize, n: usize, m: usize) -> (r: bool)
    requires
        n == s@.len(),
        m == p@.len(),
        i + m <= n,
    ensures
        r == occurs_at(s@, p@, i as int),
{
    let mut j: usize = 0;
    while j < m
        invariant
            n == s@.len(),
            m == p@.len(),
            i + m <= n,
            j <= m,
            s@.subrange(i as int, i + j) =~= p@.take(j as int),
        decreases m - j,
    {
        if s.get_char(i + j) != p.get_char(j) {
            assert(s@.subrange(i as int, i + m)[j as int] != p@[j as int]);
            return false;
        }
        assert(s@.subrange(i as int, i + j + 1) =~= p@.take(j + 1));
        j = j + 1;
    }
    assert(p@.take(m as int) =~= p@);
    true
}

/// The part of `s` after the last occurrence of `p` (`s.rsplit(p).next()`).
pub fn after_last_occurrence(s: &str, p: &str) -> (r: String)
    requires
        p@.len() > 0,
    ensures
        r@ == after_last(s@, p@),
{
    let n = s.unicode_len();
    let m = p.unicode_len();
    let ghost lim: int = n - m;
    let mut start: usize = 0;
    if m <= n {
        // k - 1 is the next candidate position
        let mut k: usize = n - m + 1;
        let mut found = false;
        while k > 0 && !found
            invariant
                n == s@.len(),
                m == p@.len(),
                m > 0,
                m <= n,
                lim == n - m,
                k <= n - m + 1,
                found ==> k > 0 && last_occurrence_upto(s@, p@, lim) == k - 1 && start == k - 1 + m,
                !found ==> start == 0 && last_occurrence_upto(s@, p@, lim) == last_occurrence_upto(
                    s@,
                    p@,
                    k - 1,
                ),
            decreases k + (if found { 0int } else { 1int }),
        {
            if occurs_here(s, p, k - 1, n, m) {
                start = k - 1 + m;
                found = true;
            } else {
                k = k - 1;
            }
        }
        assert(!found ==> last_occurrence_upto(s@, p@, lim) == -1);
    } else {
        assert(last_occurrence_upto(s@, p@, lim) == -1);
    }
    let mut r = String::new();
    let mut i: usize = start;
    while i < n
        invariant
            n == s@.len(),
            start <= i <= n,
            r@ =~= s@.subrange(start as int, i as int),
        decreases n - i,
    {
        let c = s.get_char(i);
        push_char(&mut r, c);
        assert(s@.subrange(start as int, i + 1) =~= s@.subrange(start as int, i as int).push(c));
        i = i + 1;
    }
    assert(r@ =~= after_last(s@, p@));
    r
}

/// Parse a string as a `u32` (`str::parse::<u32>`, discarding the error).
pub fn parse_u32(s: &str) -> (r: Option<u32>)
    ensures
        r == parsed_u32(s@),
{
    let n = s.unicode_len();
    let mut i: usize = 0;
    if n > 0 && s.get_char(0) == '+' {
        i = 1;
    }
    let start = i;
    let ghost d = if s@.len() > 0 && s@[0] == '+' {
        s@.skip(1)
    } else {
        s@
    };
    assert(d =~= s@.skip(start as int));
    if start == n {
        return None;
    }
    let mut value: u64 = 0;
    while i < n
        invariant
            n == s@.len(),
            start < n,
            start <= i <= n,
            d =~= s@.skip(start as int),
            d == (if s@.len() > 0 && s@[0] == '+' {
                s@.skip(1)
            } else {
                s@
            }),
            all_digits(s@.subrange(start as int, i as int)),
            value == digits_value(s@.subrange(start as int, i as int)),
            value <= u32::MAX,
        decreases n - i,
    {
        let c = s.get_char(i);
        let ghost pre = s@.subrange(start as int, i as int);
        let ghost post = s@.subrange(start as int, i + 1);
        assert(post.drop_last() =~= pre);
        assert(post.last() == c);
        if !('0' <= c && c <= '9') {
            assert(d[i - start] == c);
            assert(!is_digit(d[i - start]));
            assert(!all_digits(d));
            assert(parsed_u32(s@) is None);
            return None;
        }
        let dv: u64 = (c as u32 - 48) as u64;
        assert(dv == c as int - 48);
        value = value * 10 + dv;
        assert(value == digits_value(post));
        if value > 4294967295 {
            proof {
                if all_digits(d) {
                    assert(d.take(i + 1 - start) =~= post);
                    lemma_digits_value_prefix_bound(d, (i + 1 - start) as int);
                }
            }
            assert(parsed_u32(s@) is None);
            return None;
        }
        assert(all_digits(post)) by {
            assert forall|k: int| 0 <= k < post.len() implies is_digit(#[trigger] post[k]) by {
                if k < pre.len() {
                    assert(post[k] == pre[k]);
                }
            }
        }
        i = i + 1;
    }
    assert(s@.subrange(start as int, n as int) =~= d);
    Some(value as u32)
}

/// A run of digits is worth at least what any of its prefixes is worth.
proof fn lemma_digits_value_prefix_bound(d: Seq<char>, k: int)
    requires
        0 <= k <= d.len(),
        all_digits(d),
    ensures
        digits_value(d) >= digits_value(d.take(k)),
    decreases d.len(),
{
    if k < d.len() {
        assert(d.drop_last().take(k) =~= d.take(k));
        assert(all_digits(d.drop_last())) by {
            assert forall|i: int| 0 <= i < d.drop_last().len() implies is_digit(
                #[trigger] d.drop_last()[i],
            ) by {
                assert(d.drop_last()[i] == d[i]);
            }
        }
        lemma_digits_value_prefix_bound(d.drop_last(), k);
        assert(is_digit(d[d.len() - 1]));
    } else {
        assert(d.take(k) =~= d);
    }
}

// ─── Encounter history ───────────────────────────────────────────────────────

/// The abstract state of an [`EncounterHistory`].
pub struct HistoryView {
    pub summaries: Seq<EncounterSummary>,
    pub boss_pull_counts: Map<Seq<char>, u32>,
    pub trash_pull_count: u32,
    pub current_generation: Option<u64>,
}

/// Tracks encounter history for the current log file session
pub struct EncounterHistory {
    summaries: Vec<EncounterSummary>,
    boss_pull_counts: NameCounts,
    trash_pull_count: u32,
    /// Generation counter from AreaInfo, used to detect phase boundaries
    /// (including re-entering the same area).
    current_generation: Option<u64>,
}

impl View for EncounterHistory {
    type V = HistoryView;

    closed spec fn view(&self) -> HistoryView {
        HistoryView {
            summaries: self.summaries@,
            boss_pull_counts: name_count_entries(self.boss_pull_counts),
            trash_pull_count: self.trash_pull_count,
            current_generation: self.current_generation,
        }
    }
}

/// The pulls recorded for `name` so far (zero when none).
pub open spec fn pulls_of(counts: Map<Seq<char>, u32>, name: Seq<char>) -> nat {
    if counts.contains_key(name) {
        counts[name] as nat
    } else {
        0
    }
}

/// The prefix of a trash encounter's name for each phase type.
pub open spec fn trash_label(t: PhaseType) -> Seq<char> {
    match t {
        PhaseType::Raid => "Raid Trash "@,
        PhaseType::Flashpoint => "Flashpoint Trash "@,
        PhaseType::DummyParse => "Dummy Parse "@,
        PhaseType::PvP => "PvP Match "@,
        PhaseType::OpenWorld => "Open World "@,
    }
}

/// A boss encounter's name: `Brontes - 7`.
pub open spec fn boss_pull_name(name: Seq<char>, count: nat) -> Seq<char> {
    name + boss_separator() + nat_digits(count)
}

/// The history with nothing recorded.
pub open spec fn empty_history() -> HistoryView {
    HistoryView {
        summaries: Seq::empty(),
        boss_pull_counts: no_boss_pulls(),
        trash_pull_count: 0,
        current_generation: None,
    }
}

/// The history after an area with generation `g` is seen, and whether this
/// started a new phase.
pub open spec fn area_change(v: HistoryView, g: u64) -> (bool, HistoryView) {
    if v.current_generation == Some(g) {
        (false, v)
    } else {
        (
            true,
            HistoryView {
                current_generation: Some(g),
                trash_pull_count: 0,
                boss_pull_counts: no_boss_pulls(),
                ..v
            },
        )
    }
}

/// Naming the next encounter is possible without a counter overflowing.
pub open spec fn can_name(v: HistoryView, boss_name: Option<Seq<char>>) -> bool {
    match boss_name {
        Some(b) => pulls_of(v.boss_pull_counts, b) < u32::MAX,
        None => v.trash_pull_count < u32::MAX,
    }
}

/// The name of the next encounter of type `t` (with `boss_name` if a boss was
/// fought) and the history after counting that pull.
pub open spec fn next_name(v: HistoryView, t: PhaseType, boss_name: Option<Seq<char>>) -> (
    Seq<char>,
    HistoryView,
) {
    match boss_name {
        Some(b) => {
            let count = pulls_of(v.boss_pull_counts, b) + 1;
            (
                boss_pull_name(b, count),
                HistoryView {
                    boss_pull_counts: v.boss_pull_counts.insert(b, count as u32),
                    ..v
                },
            )
        },
        None => {
            let count = v.trash_pull_count + 1;
            (
                trash_label(t) + nat_digits(count as nat),
                HistoryView { trash_pull_count: count as u32, ..v },
            )
        },
    }
}

/// The index of the last summary that starts a phase, or 0 when none does.
pub open spec fn last_phase_start(s: Seq<EncounterSummary>) -> int
    decreases s.len(),
{
    if s.len() == 0 {
        0
    } else if s.last().is_phase_start {
        s.len() - 1
    } else {
        last_phase_start(s.drop_last())
    }
}

/// The larger of two counts.
pub open spec fn max_count(a: u32, b: u32) -> u32 {
    if a >= b {
        a
    } else {
        b
    }
}

/// The pull counts after taking one summary's number into account: the
/// number after the last ` - ` for a boss encounter, after the last space
/// for trash; names without a number leave the counts unchanged.
pub open spec fn count_step(acc: (Map<Seq<char>, u32>, u32), s: EncounterSummary) -> (
    Map<Seq<char>, u32>,
    u32,
) {
    match s.boss_name {
        Some(b) => match parsed_u32(after_last(s.display_name@, boss_separator())) {
            Some(c) => (
                acc.0.insert(b@, max_count(pulls_of(acc.0, b@) as u32, c)),
                acc.1,
            ),
            None => acc,
        },
        None => match parsed_u32(after_last(s.display_name@, seq![' '])) {
            Some(c) => (acc.0, max_count(acc.1, c)),
            None => acc,
        },
    }
}

/// The pull counts read from a run of summaries, in order.
pub open spec fn counts_from(s: Seq<EncounterSummary>) -> (Map<Seq<char>, u32>, u32)
    decreases s.len(),
{
    if s.len() == 0 {
        (no_boss_pulls(), 0)
    } else {
        count_step(counts_from(s.drop_last()), s.last())
    }
}

/// The summary with its Parsely link set.
pub open spec fn with_link(s: EncounterSummary, link: String) -> EncounterSummary {
    EncounterSummary { parsely_link: Some(link), ..s }
}

/// The history with one more summary at the end.
pub open spec fn with_added(v: HistoryView, s: EncounterSummary) -> HistoryView {
    HistoryView { summaries: v.summaries.push(s), ..v }
}

/// The history with summary `i` given the Parsely link.
pub open spec fn with_link_at(v: HistoryView, i: int, link: String) -> HistoryView {
    HistoryView { summaries: v.summaries.update(i, with_link(v.summaries[i], link)), ..v }
}

/// The history with the area generation set.
pub open spec fn with_generation(v: HistoryView, g: u64) -> HistoryView {
    HistoryView { current_generation: Some(g), ..v }
}

/// The history with the given boss and trash pull counts.
pub open spec fn with_counts(v: HistoryView, counts: (Map<Seq<char>, u32>, u32)) -> HistoryView {
    HistoryView { boss_pull_counts: counts.0, trash_pull_count: counts.1, ..v }
}

/// The view of an optional borrowed string.
pub open spec fn opt_str(b: Option<&str>) -> Option<Seq<char>> {
    match b {
        Some(s) => Some(s@),
        None => None,
    }
}

impl EncounterHistory {
    pub fn new() -> (r: EncounterHistory)
        ensures
            r@ == empty_history(),
    {
        EncounterHistory {
            summaries: Vec::new(),
            boss_pull_counts: NameCounts::new(),
            trash_pull_count: 0,
            current_generation: None,
        }
    }

    pub fn add(&mut self, summary: EncounterSummary)
        ensures
            final(self)@ == with_added(old(self)@, summary),
    {
        self.summaries.push(summary);
    }

    pub fn summaries(&self) -> (r: &[EncounterSummary])
        ensures
            r@ == self@.summaries,
    {
        self.summaries.as_slice()
    }

    /// Update the parsely_link for an encounter by its ID
    ///
    /// The first summary with that ID gets the link; the result tells whether
    /// there was one.
    pub fn set_parsely_link(&mut self, encounter_id: u64, link: String) -> (found: bool)
        ensures
            found == exists|i: int|
                0 <= i < old(self)@.summaries.len() && (#[trigger] old(self)@.summaries[i]).encounter_id
                    == encounter_id,
            found ==> exists|i: int|
                0 <= i < old(self)@.summaries.len() && (#[trigger] old(self)@.summaries[i]).encounter_id
                    == encounter_id && (forall|j: int|
                    0 <= j < i ==> (#[trigger] old(self)@.summaries[j]).encounter_id != encounter_id)
                    && final(self)@ == with_link_at(old(self)@, i, link),
            !found ==> final(self)@ == old(self)@,
    {
        let n = self.summaries.len();
        let mut i: usize = 0;
        while i < n
            invariant
                n == self.summaries@.len(),
                i <= n,
                self@ == old(self)@,
                forall|j: int| 0 <= j < i ==> (#[trigger] self.summaries@[j]).encounter_id != encounter_id,
            decreases n - i,
        {
            if self.summaries[i].encounter_id == encounter_id {
                let ghost before = self.summaries@;
                self.summaries[i].parsely_link = Some(link);
                assert(self.summaries@ =~= before.update(i as int, with_link(before[i as int], link)));
                return true;
            }
            i = i + 1;
        }
        false
    }

    pub fn clear(&mut self)
        ensures
            final(self)@ == empty_history(),
    {
        self.summaries.clear();
        self.boss_pull_counts.clear();
        self.trash_pull_count = 0;
        self.current_generation = None;
    }

    /// Check if area changed and update tracking.
    /// Uses the area generation counter so re-entering the same area
    /// (e.g., running the same flashpoint twice) is detected as a new phase.
    pub fn check_area_change(&mut self, generation: u64) -> (changed: bool)
        ensures
            (changed, final(self)@) == area_change(old(self)@, generation),
    {
        let changed = match self.current_generation {
            Some(g) => g != generation,
            None => true,
        };
        if changed {
            self.current_generation = Some(generation);
            // Reset pull counts on area change
            self.trash_pull_count = 0;
            self.boss_pull_counts.clear();
        }
        changed
    }

    /// Restore the generation counter without resetting pull counts.
    /// Used when importing encounter history from subprocess - the pull counts
    /// are already reflected in the imported encounter names.
    pub fn restore_generation(&mut self, generation: u64)
        ensures
            final(self)@ == with_generation(old(self)@, generation),
    {
        self.current_generation = Some(generation);
    }

    /// Forgets the pull counts of the current phase.
    pub(crate) fn reset_pull_counts(&mut self)
        ensures
            final(self)@ == with_counts(old(self)@, (no_boss_pulls(), 0)),
    {
        self.boss_pull_counts.clear();
        self.trash_pull_count = 0;
    }

    /// Rebuild pull counts from imported encounter summaries.
    /// This extracts the counts from encounter names like "Boss - 3" or "Raid Trash 5".
    /// Call this after importing encounters to ensure live encounters continue with correct numbering.
    ///
    /// Only counts encounters from the CURRENT phase (after the last is_phase_start).
    /// When you enter a new area, pull counts reset, so we shouldn't carry over counts from previous areas.
    pub fn rebuild_pull_counts(&mut self)
        ensures
            final(self)@ == with_counts(
                old(self)@,
                counts_from(old(self)@.summaries.skip(last_phase_start(old(self)@.summaries))),
            ),
    {
        self.trash_pull_count = 0;
        self.boss_pull_counts.clear();
        let n = self.summaries.len();
        let ghost all = self.summaries@;
        // Find the index of the last phase start (area change)
        let mut k: usize = n;
        let mut start: usize = 0;
        let mut found = false;
        assert(all.take(n as int) =~= all);
        while k > 0 && !found
            invariant
                n == all.len(),
                k <= n,
                start <= n,
                found ==> last_phase_start(all) == start,
                !found ==> last_phase_start(all) == last_phase_start(all.take(k as int)),
                !found ==> start == 0,
                self.summaries@ == all,
            decreases k + (if found { 0int } else { 1int }),
        {
            assert(all.take(k as int).drop_last() =~= all.take(k - 1));
            if self.summaries[k - 1].is_phase_start {
                start = k - 1;
                found = true;
            } else {
                k = k - 1;
            }
        }
        proof {
            if !found {
                assert(all.take(0) =~= Seq::<EncounterSummary>::empty());
            }
        }
        // Only count encounters from the current phase onwards
        let ghost run = all.skip(start as int);
        let mut i: usize = start;
        while i < n
            invariant
                n == all.len(),
                start <= i <= n,
                self.summaries@ == all,
                run == all.skip(start as int),
                (name_count_entries(self.boss_pull_counts), self.trash_pull_count) == counts_from(
                    run.take(i - start),
                ),
                self.current_generation == old(self).current_generation,
            decreases n - i,
        {
            let summary = &self.summaries[i];
            assert(run.take(i + 1 - start).drop_last() =~= run.take(i - start));
            assert(run.take(i + 1 - start).last() == *summary);
            match &summary.boss_name {
                Some(boss_name) => {
                    // Extract count from "Boss Name - N" format
                    proof {
                        reveal_strlit(" - ");
                    }
                    let tail = after_last_occurrence(summary.display_name.as_str(), " - ");
                    assert(" - "@ =~= boss_separator());
                    if let Some(count) = parse_u32(tail.as_str()) {
                        let current = match self.boss_pull_counts.get(boss_name.as_str()) {
                            Some(c) => c,
                            None => 0,
                        };
                        let best = if current >= count {
                            current
                        } else {
                            count
                        };
                        self.boss_pull_counts.insert(boss_name.clone(), best);
                    }
                },
                None => {
                    // Trash encounter - extract count from "Type N" format
                    proof {
                        reveal_strlit(" ");
                    }
                    let tail = after_last_occurrence(summary.display_name.as_str(), " ");
                    assert(" "@ =~= seq![' ']);
                    if let Some(count) = parse_u32(tail.as_str()) {
                        if count > self.trash_pull_count {
                            self.trash_pull_count = count;
                        }
                    }
                },
            }
            i = i + 1;
        }
        assert(run.take(n - start) =~= run);
    }

    /// Generate a human-readable name for an encounter based on its type and boss
    pub fn generate_name(&mut self, encounter_type: PhaseType, boss_name: Option<&str>) -> (r:
        String)
        requires
            can_name(old(self)@, opt_str(boss_name)),
        ensures
            (r@, final(self)@) == next_name(old(self)@, encounter_type, opt_str(boss_name)),
    {
        match boss_name {
            // Boss encounter: "Brontes - 7"
            Some(name) => {
                let current = match self.boss_pull_counts.get(name) {
                    Some(c) => c,
                    None => 0,
                };
                let count = current + 1;
                self.boss_pull_counts.insert(name.to_owned(), count);
                let mut r = name.to_owned();
                push_char(&mut r, ' ');
                push_char(&mut r, '-');
                push_char(&mut r, ' ');
                push_decimal(&mut r, count as u64);
                assert(r@ =~= boss_pull_name(name@, count as nat));
                r
            },
            None => {
                self.trash_pull_count = self.trash_pull_count + 1;
                let mut r = String::new();
                match encounter_type {
                    PhaseType::Raid => push_str(&mut r, "Raid Trash "),
                    PhaseType::Flashpoint => push_str(&mut r, "Flashpoint Trash "),
                    PhaseType::DummyParse => push_str(&mut r, "Dummy Parse "),
                    PhaseType::PvP => push_str(&mut r, "PvP Match "),
                    PhaseType::OpenWorld => push_str(&mut r, "Open World "),
                }
                push_decimal(&mut r, self.trash_pull_count as u64);
                assert(r@ =~= trash_label(encounter_type) + nat_digits(self.trash_pull_count as nat));
                r
            },
        }
    }

    /// Peek the current pull count for a boss without incrementing.
    /// Returns what the pull number would be for an in-progress encounter.
    /// Used for live overlay display before the encounter is finalized.
    pub fn peek_pull_count(&self, boss_name: &str) -> (r: u32)
        requires
            pulls_of(self@.boss_pull_counts, boss_name@) < u32::MAX,
        ensures
            r == pulls_of(self@.boss_pull_counts, boss_name@) + 1,
    {
        let current = match self.boss_pull_counts.get(boss_name) {
            Some(c) => c,
            None => 0,
        };
        current + 1
    }

    /// Peek the current trash pull count without incrementing.
    pub fn peek_trash_count(&self) -> (r: u32)
        requires
            self@.trash_pull_count < u32::MAX,
        ensures
            r == self@.trash_pull_count + 1,
    {
        self.trash_pull_count + 1
    }

    /// Whether the next encounter (named after `boss_name`, or trash) can be
    /// named without its pull counter overflowing.
    pub fn can_name_next(&self, boss_name: Option<&str>) -> (r: bool)
        ensures
            r == can_name(self@, opt_str(boss_name)),
    {
        match boss_name {
            Some(name) => match self.boss_pull_counts.get(name) {
                Some(c) => c < u32::MAX,
                None => true,
            },
            None => self.trash_pull_count < u32::MAX,
        }
    }
}

// ─── Laws ────────────────────────────────────────────────────────────────────

/// An occurrence at `j`, and none after it up to `k`, makes `j` the last one.
proof fn lemma_last_occurrence_is(s: Seq<char>, p: Seq<char>, j: int, k: int)
    requires
        0 <= j <= k,
        occurs_at(s, p, j),
        forall|i: int| j < i <= k ==> !occurs_at(s, p, i),
    ensures
        last_occurrence_upto(s, p, k) == j,
    decreases k - j,
{
    if k > j {
        lemma_last_occurrence_is(s, p, j, k - 1);
    }
}

/// The number after a name's last `sep` when the name is `prefix`, `sep`, and
/// the digits of `count`, provided no occurrence of `sep` can start inside
/// the digits or straddle them.
proof fn lemma_number_after_separator(prefix: Seq<char>, sep: Seq<char>, count: u32)
    requires
        sep.len() > 0,
        forall|i: int| 0 <= i < sep.len() ==> !is_digit(#[trigger] sep[i]),
        sep.len() == 1 || (sep.len() == 3 && sep[0] == ' ' && sep[1] == '-' && sep[2] == ' '),
    ensures
        parsed_u32(after_last(prefix + sep + nat_digits(count as nat), sep)) == Some(count),
{
    let d = nat_digits(count as nat);
    lemma_nat_digits(count as nat);
    let s = prefix + sep + d;
    let j = prefix.len() as int;
    let lim = s.len() - sep.len();
    assert(s.subrange(j, j + sep.len()) =~= sep);
    assert forall|i: int| j < i <= lim implies !occurs_at(s, sep, i) by {
        if occurs_at(s, sep, i) {
            assert(s.subrange(i, i + sep.len())[0] == sep[0]);
            if sep.len() == 1 {
                assert(s[i] == d[i - j - 1]);
                assert(is_digit(d[i - j - 1]));
            } else if i == j + 1 {
                assert(s[i] == sep[1]);
                assert(s.subrange(i, i + sep.len())[0] == s[i]);
            } else if i == j + 2 {
                assert(s.subrange(i, i + sep.len())[1] == s[i + 1]);
                assert(s[i + 1] == d[0]);
                assert(is_digit(d[0]));
            } else {
                assert(s.subrange(i, i + sep.len())[0] == s[i]);
                assert(s[i] == d[i - j - 3]);
                assert(is_digit(d[i - j - 3]));
            }
        }
    }
    lemma_last_occurrence_is(s, sep, j, lim);
    assert(s.skip(j + sep.len()) =~= d);
    assert(d[0] != '+') by {
        assert(is_digit(d[0]));
    }
}

/// A boss encounter's name carries its pull number where rebuilding the
/// counts looks for it: after the last ` - `, whatever the boss is called.
pub proof fn law_boss_pull_number_reads_back(name: Seq<char>, count: u32)
    ensures
        parsed_u32(after_last(boss_pull_name(name, count as nat), boss_separator())) == Some(count),
{
    let sep = boss_separator();
    assert forall|i: int| 0 <= i < sep.len() implies !is_digit(#[trigger] sep[i]) by {}
    lemma_number_after_separator(name, sep, count);
}

/// A trash encounter's name carries its pull number after the last space.
pub proof fn law_trash_pull_number_reads_back(t: PhaseType, count: u32)
    ensures
        parsed_u32(after_last(trash_label(t) + nat_digits(count as nat), seq![' '])) == Some(count),
{
    let label = trash_label(t);
    let prefix = label.drop_last();
    reveal_strlit("Raid Trash ");
    reveal_strlit("Flashpoint Trash ");
    reveal_strlit("Dummy Parse ");
    reveal_strlit("PvP Match ");
    reveal_strlit("Open World ");
    assert(label =~= prefix + seq![' ']);
    let sep: Seq<char> = seq![' '];
    assert forall|i: int| 0 <= i < sep.len() implies !is_digit(#[trigger] sep[i]) by {}
    lemma_number_after_separator(prefix, sep, count);
}

/// Peeking at a boss's pull count gives the number that the next encounter
/// named after that boss will carry.
pub proof fn law_peek_predicts_boss_name(v: HistoryView, t: PhaseType, boss: Seq<char>)
    requires
        can_name(v, Some(boss)),
    ensures
        next_name(v, t, Some(boss)).0 == boss_pull_name(boss, pulls_of(v.boss_pull_counts, boss) + 1),
        pulls_of(next_name(v, t, Some(boss)).1.boss_pull_counts, boss) == pulls_of(
            v.boss_pull_counts,
            boss,
        ) + 1,
{
}

/// Peeking at the trash count gives the number that the next trash encounter
/// will carry.
pub proof fn law_peek_predicts_trash_name(v: HistoryView, t: PhaseType)
    requires
        can_name(v, None),
    ensures
        next_name(v, t, None).0 == trash_label(t) + nat_digits((v.trash_pull_count + 1) as nat),
        next_name(v, t, None).1.trash_pull_count == v.trash_pull_count + 1,
{
}

/// Seeing the same area generation twice starts one phase, not two: the
/// second check reports no change and changes nothing.
pub proof fn law_area_change_idempotent(v: HistoryView, g: u64)
    ensures
        area_change(area_change(v, g).1, g) == (false, area_change(v, g).1),
{
}

/// Entering a new area restarts the numbering: the next encounter is pull 1.
pub proof fn law_new_phase_restarts_numbering(
    v: HistoryView,
    g: u64,
    t: PhaseType,
    boss: Option<Seq<char>>,
)
    requires
        area_change(v, g).0,
    ensures
        next_name(area_change(v, g).1, t, boss).0 == match boss {
            Some(b) => boss_pull_name(b, 1),
            None => trash_label(t) + nat_digits(1),
        },
{
}

// ─── Classification ──────────────────────────────────────────────────────────

/// `a` comes strictly before `b` as a first-seen time, an unknown time
/// sorting before every known one.
pub open spec fn seen_before(a: Option<i64>, b: Option<i64>) -> bool {
    match (a, b) {
        (None, Some(_)) => true,
        (Some(x), Some(y)) => x < y,
        _ => false,
    }
}

/// Among the NPCs that the game data knows as bosses, the one seen first
/// (the earliest in the list among equal times), as (NPC index, boss index).
pub open spec fn first_seen_boss(npcs: Seq<NpcInfo>, bosses: Seq<BossInfo>) -> Option<(int, int)>
    decreases npcs.len(),
{
    if npcs.len() == 0 {
        None
    } else {
        let prev = first_seen_boss(npcs.drop_last(), bosses);
        let npc = npcs.last();
        match boss_index(bosses, npc.class_id) {
            None => prev,
            Some(b) => match prev {
                None => Some((npcs.len() - 1, b)),
                Some(p) => if seen_before(npc.first_seen_at, npcs[p.0].first_seen_at) {
                    Some((npcs.len() - 1, b))
                } else {
                    prev
                },
            },
        }
    }
}

/// The primary boss of an encounter, as an index into the game data's
/// bosses: looked up only when some NPC is flagged as a boss.
pub open spec fn primary_boss(e: CombatEncounter, game: GameData) -> Option<int> {
    if e.has_boss_npc() {
        match first_seen_boss(e.npcs@, game.bosses@) {
            Some(p) => Some(p.1),
            None => None,
        }
    } else {
        None
    }
}

/// The phase type of a difficulty's group size.
pub open spec fn phase_for_group_size(g: u32) -> PhaseType {
    if g == 8 || g == 16 {
        PhaseType::Raid
    } else if g == 4 {
        PhaseType::Flashpoint
    } else {
        PhaseType::OpenWorld
    }
}

/// The phase type of an encounter: training dummies first, then PvP areas,
/// then the group size of the difficulty.
pub open spec fn classified_phase(
    e: CombatEncounter,
    area_id: i64,
    difficulty_id: i64,
    game: GameData,
) -> PhaseType {
    if primary_boss(e, game) matches Some(b) && game.bosses@[b].content_type
        == ContentType::TrainingDummy {
        PhaseType::DummyParse
    } else if e.active_definition() matches Some(d) && d.area_type == AreaType::TrainingDummy {
        PhaseType::DummyParse
    } else if game.pvp_area_ids@.contains(area_id) {
        PhaseType::PvP
    } else {
        match difficulty_index(game.difficulties@, difficulty_id) {
            Some(i) => phase_for_group_size(game.difficulties@[i].group_size),
            None => PhaseType::OpenWorld,
        }
    }
}

proof fn lemma_first_seen_boss_bounds(npcs: Seq<NpcInfo>, bosses: Seq<BossInfo>)
    ensures
        first_seen_boss(npcs, bosses) matches Some(p) ==> 0 <= p.0 < npcs.len() && 0 <= p.1
            < bosses.len(),
    decreases npcs.len(),
{
    if npcs.len() > 0 {
        lemma_first_seen_boss_bounds(npcs.drop_last(), bosses);
        lemma_boss_index_bounds(bosses, npcs.last().class_id);
    }
}

/// Classify an encounter's phase type and find the primary boss (if any)
/// Uses difficulty ID for phase classification, with training dummy override
pub fn classify_encounter<'a>(
    encounter: &CombatEncounter,
    area_id: i64,
    difficulty_id: i64,
    game: &'a GameData,
) -> (r: (PhaseType, Option<&'a BossInfo>))
    requires
        encounter.well_formed(),
    ensures
        r.0 == classified_phase(*encounter, area_id, difficulty_id, *game),
        match primary_boss(*encounter, *game) {
            Some(b) => r.1 == Some(&game.bosses@[b]),
            None => r.1 is None,
        },
{
    // 1. Find boss info if present (first seen boss NPC is the primary boss)
    let mut boss: Option<usize> = None;
    if encounter.any_boss_npc() {
        let n = encounter.npcs.len();
        let mut best: Option<(usize, usize)> = None;
        let mut i: usize = 0;
        while i < n
            invariant
                n == encounter.npcs@.len(),
                i <= n,
                first_seen_boss(encounter.npcs@.take(i as int), game.bosses@) == match best {
                    Some(p) => Some((p.0 as int, p.1 as int)),
                    None => None,
                },
                best matches Some(p) ==> p.0 < i && p.1 < game.bosses@.len(),
            decreases n - i,
        {
            let ghost pre = encounter.npcs@.take(i as int);
            assert(encounter.npcs@.take(i + 1).drop_last() =~= pre);
            assert(encounter.npcs@.take(i + 1).last() == encounter.npcs@[i as int]);
            let npc = &encounter.npcs[i];
            let ghost prev = first_seen_boss(pre, game.bosses@);
            assert(first_seen_boss(encounter.npcs@.take(i + 1), game.bosses@) == match boss_index(
                game.bosses@,
                npc.class_id,
            ) {
                None => prev,
                Some(b) => match prev {
                    None => Some((i as int, b)),
                    Some(p) => if seen_before(npc.first_seen_at, pre[p.0].first_seen_at) {
                        Some((i as int, b))
                    } else {
                        prev
                    },
                },
            });
            match game.find_boss(npc.class_id) {
                None => {},
                Some(b) => {
                    match best {
                        None => {
                            best = Some((i, b));
                        },
                        Some((j, _)) => {
                            let earlier = match (npc.first_seen_at, encounter.npcs[j].first_seen_at) {
                                (None, Some(_)) => true,
                                (Some(x), Some(y)) => x < y,
                                _ => false,
                            };
                            assert(pre[j as int] == encounter.npcs@[j as int]);
                            assert(earlier == seen_before(
                                npc.first_seen_at,
                                encounter.npcs@[j as int].first_seen_at,
                            ));
                            if earlier {
                                best = Some((i, b));
                            }
                        },
                    }
                },
            }
            i = i + 1;
        }
        assert(encounter.npcs@.take(n as int) =~= encounter.npcs@);
        boss = match best {
            Some((_, b)) => Some(b),
            None => None,
        };
    }
    let boss_info: Option<&'a BossInfo> = match boss {
        Some(b) => Some(&game.bosses[b]),
        None => None,
    };

    // 2. Check for training dummy (overrides all other classification)
    if let Some(b) = boss {
        if game.bosses[b].content_type == ContentType::TrainingDummy {
            return (PhaseType::DummyParse, boss_info);
        }
    }
    if let Some(idx) = encounter.active_boss_idx {
        if encounter.boss_definitions[idx].area_type == AreaType::TrainingDummy {
            return (PhaseType::DummyParse, boss_info);
        }
    }

    // 3. Check PvP area
    if game.is_pvp_area(area_id) {
        return (PhaseType::PvP, boss_info);
    }

    // 4. Classify by difficulty ID
    let phase = match game.difficulty_by_id(difficulty_id) {
        Some(difficulty) => {
            let g = difficulty.group_size;
            if g == 8 || g == 16 {
                PhaseType::Raid
            } else if g == 4 {
                PhaseType::Flashpoint
            } else {
                PhaseType::OpenWorld
            }
        },
        None => PhaseType::OpenWorld,
    };
    (phase, boss_info)
}

/// The victory trigger of a definition is required on the encounter's
/// difficulty: always when it names no difficulty, otherwise only on a known
/// difficulty whose key it names.
pub open spec fn victory_trigger_applies(def: BossDefinition, difficulty: Option<Difficulty>) -> bool {
    def.victory_trigger_difficulties@.len() == 0 || (difficulty matches Some(d) && exists|k: int|
        0 <= k < def.victory_trigger_difficulties@.len()
            && (#[trigger] def.victory_trigger_difficulties@[k])@ == d.config_key@)
}

/// Whether the encounter counts as a success (not a wipe).
pub open spec fn encounter_succeeded(e: CombatEncounter) -> bool {
    if e.active_definition() matches Some(def) && def.has_victory_trigger
        && victory_trigger_applies(def, e.difficulty) {
        e.victory_triggered
    } else {
        !e.likely_wipe
    }
}

/// Determine if an encounter was successful (not a wipe)
/// Returns false (wipe) if all players died or kill targets are still alive
/// For victory-trigger encounters, success requires the trigger to have fired
/// (but only if the victory trigger applies to the current difficulty)
pub fn determine_success(encounter: &CombatEncounter) -> (r: bool)
    requires
        encounter.well_formed(),
    ensures
        r == encounter_succeeded(*encounter),
{
    // Check if the ACTIVE boss requires a victory trigger
    // Only check the specific boss being fought, not all bosses in the area
    if let Some(idx) = encounter.active_boss_idx {
        let def = &encounter.boss_definitions[idx];
        if def.has_victory_trigger {
            // If victory_trigger_difficulties is empty, it applies to all
            // If specified, only require the trigger on matching difficulties
            let trigger_applies = if def.victory_trigger_difficulties.len() == 0 {
                true
            } else {
                match &encounter.difficulty {
                    // If difficulty unknown, don't require trigger
                    None => false,
                    Some(d) => {
                        let n = def.victory_trigger_difficulties.len();
                        let mut found = false;
                        let mut k: usize = 0;
                        while k < n && !found
                            invariant
                                n == def.victory_trigger_difficulties@.len(),
                                k <= n,
                                !found ==> forall|j: int|
                                    0 <= j < k ==> (#[trigger] def.victory_trigger_difficulties@[j])@
                                        != d.config_key@,
                                found ==> exists|j: int|
                                    0 <= j < n && (#[trigger] def.victory_trigger_difficulties@[j])@
                                        == d.config_key@,
                            decreases n - k,
                        {
                            if def.victory_trigger_difficulties[k] == d.config_key {
                                found = true;
                            }
                            k = k + 1;
                        }
                        found
                    },
                }
            };
            if trigger_applies {
                // Hard requirement: victory trigger must have fired for success
                return encounter.victory_triggered;
            }
            // Victory trigger doesn't apply to this difficulty, fall through to normal logic

        }
    }
    // Standard encounters: use the wipe heuristic
    !encounter.likely_wipe
}

// ─── Enemy names ─────────────────────────────────────────────────────────────

/// The names of the encounter's NPCs other than companions, in order.
pub open spec fn enemy_names(npcs: Seq<NpcInfo>) -> Seq<Seq<char>>
    decreases npcs.len(),
{
    if npcs.len() == 0 {
        Seq::empty()
    } else if npcs.last().entity_type != EntityType::Companion {
        enemy_names(npcs.drop_last()).push(npcs.last().name@)
    } else {
        enemy_names(npcs.drop_last())
    }
}

/// How many times `x` occurs in `s`.
pub open spec fn occurrences(s: Seq<Seq<char>>, x: Seq<char>) -> nat
    decreases s.len(),
{
    if s.len() == 0 {
        0
    } else if s.last() == x {
        occurrences(s.drop_last(), x) + 1
    } else {
        occurrences(s.drop_last(), x)
    }
}

/// The distinct elements of `s`, in the order of their first occurrence.
pub open spec fn distinct_in_order(s: Seq<Seq<char>>) -> Seq<Seq<char>>
    decreases s.len(),
{
    if s.len() == 0 {
        Seq::empty()
    } else if distinct_in_order(s.drop_last()).contains(s.last()) {
        distinct_in_order(s.drop_last())
    } else {
        distinct_in_order(s.drop_last()).push(s.last())
    }
}

/// An NPC name as listed in a summary: with its count when it appeared more
/// than once, as in `Trooper (3)`.
pub open spec fn npc_label(name: Seq<char>, count: nat) -> Seq<char> {
    if count > 1 {
        name + seq![' ', '('] + nat_digits(count) + seq![')']
    } else {
        name
    }
}

/// One label per distinct enemy name.
pub open spec fn npc_labels(npcs: Seq<NpcInfo>) -> Seq<Seq<char>> {
    let names = enemy_names(npcs);
    distinct_in_order(names).map_values(|n: Seq<char>| npc_label(n, occurrences(names, n)))
}

proof fn lemma_distinct_contains(s: Seq<Seq<char>>, x: Seq<char>)
    ensures
        distinct_in_order(s).contains(x) <==> s.contains(x),
    decreases s.len(),
{
    if s.len() > 0 {
        lemma_distinct_contains(s.drop_last(), x);
        let d = distinct_in_order(s.drop_last());
        if s.contains(x) && x != s.last() {
            let k = choose|k: int| 0 <= k < s.len() && s[k] == x;
            assert(s.drop_last()[k] == x);
        }
        if s.drop_last().contains(x) {
            let k = choose|k: int| 0 <= k < s.drop_last().len() && s.drop_last()[k] == x;
            assert(s[k] == x);
        }
        if !d.contains(s.last()) {
            assert(d.push(s.last())[d.len() as int] == s.last());
            if d.contains(x) {
                let k = choose|k: int| 0 <= k < d.len() && d[k] == x;
                assert(d.push(s.last())[k] == x);
            }
            if d.push(s.last()).contains(x) && x != s.last() {
                let k = choose|k: int| 0 <= k < d.len() + 1 && d.push(s.last())[k] == x;
                assert(d[k] == x);
            }
        }
        assert(s[s.len() - 1] == s.last());
    }
}

proof fn lemma_distinct_no_duplicates(s: Seq<Seq<char>>)
    ensures
        distinct_in_order(s).no_duplicates(),
    decreases s.len(),
{
    if s.len() > 0 {
        lemma_distinct_no_duplicates(s.drop_last());
        let d = distinct_in_order(s.drop_last());
        if !d.contains(s.last()) {
            let e = d.push(s.last());
            assert forall|a: int, b: int| 0 <= a < e.len() && 0 <= b < e.len() && a != b implies e[a]
                != e[b] by {
                if a < d.len() && b < d.len() {
                    assert(e[a] == d[a] && e[b] == d[b]);
                } else if a < d.len() {
                    assert(e[a] == d[a]);
                } else if b < d.len() {
                    assert(e[b] == d[b]);
                }
            }
        }
    }
}

proof fn lemma_occurrences_absent(s: Seq<Seq<char>>, x: Seq<char>)
    requires
        !s.contains(x),
    ensures
        occurrences(s, x) == 0,
    decreases s.len(),
{
    if s.len() > 0 {
        assert(s[s.len() - 1] == s.last());
        assert(!s.drop_last().contains(x)) by {
            if s.drop_last().contains(x) {
                let k = choose|k: int| 0 <= k < s.drop_last().len() && s.drop_last()[k] == x;
                assert(s[k] == x);
            }
        }
        lemma_occurrences_absent(s.drop_last(), x);
    }
}

/// Each name is counted at most `u32::MAX` times.
pub open spec fn name_counts_fit(names: Seq<Seq<char>>) -> bool {
    forall|x: Seq<char>| #[trigger] occurrences(names, x) <= u32::MAX
}

proof fn lemma_enemy_names_grow(npcs: Seq<NpcInfo>, i: int, j: int, x: Seq<char>)
    requires
        0 <= i <= j <= npcs.len(),
    ensures
        occurrences(enemy_names(npcs.take(i)), x) <= occurrences(enemy_names(npcs.take(j)), x),
    decreases j - i,
{
    if i < j {
        lemma_enemy_names_grow(npcs, i, j - 1, x);
        let t = npcs.take(j);
        assert(t.drop_last() =~= npcs.take(j - 1));
        let before = enemy_names(t.drop_last());
        if t.last().entity_type != EntityType::Companion {
            assert(before.push(t.last().name@).drop_last() =~= before);
        }
    }
}

/// Two sequences without repeats and with the same elements give the same
/// multiset under any map.
proof fn lemma_same_elements_same_multiset<A, B>(a: Seq<A>, b: Seq<A>, f: spec_fn(A) -> B)
    requires
        a.no_duplicates(),
        b.no_duplicates(),
        forall|x: A| a.contains(x) <==> b.contains(x),
    ensures
        a.map_values(f).to_multiset() == b.map_values(f).to_multiset(),
    decreases a.len(),
{
    if a.len() == 0 {
        if b.len() > 0 {
            assert(b.contains(b[0]));
        }
        assert(a.map_values(f) =~= Seq::<B>::empty());
        assert(b.map_values(f) =~= Seq::<B>::empty());
    } else {
        let x = a.last();
        assert(a.contains(a[a.len() - 1]));
        let i = choose|i: int| 0 <= i < b.len() && b[i] == x;
        let a2 = a.drop_last();
        let b2 = b.remove(i);
        assert(a2.no_duplicates()) by {
            assert forall|p: int, q: int| 0 <= p < a2.len() && 0 <= q < a2.len() && p != q implies a2[p]
                != a2[q] by {
                assert(a2[p] == a[p] && a2[q] == a[q]);
            }
        }
        assert(b2.no_duplicates()) by {
            assert forall|p: int, q: int| 0 <= p < b2.len() && 0 <= q < b2.len() && p != q implies b2[p]
                != b2[q] by {
                let pp = if p < i { p } else { p + 1 };
                let qq = if q < i { q } else { q + 1 };
                assert(b2[p] == b[pp] && b2[q] == b[qq]);
            }
        }
        assert forall|y: A| a2.contains(y) <==> b2.contains(y) by {
            if a2.contains(y) {
                let p = choose|p: int| 0 <= p < a2.len() && a2[p] == y;
                assert(a[p] == y);
                assert(y != x) by {
                    assert(a[a.len() - 1] == x);
                }
                assert(b.contains(y));
                let q = choose|q: int| 0 <= q < b.len() && b[q] == y;
                assert(q != i);
                let qq = if q < i { q } else { q - 1 };
                assert(b2[qq] == y);
            }
            if b2.contains(y) {
                let q = choose|q: int| 0 <= q < b2.len() && b2[q] == y;
                let qq = if q < i { q } else { q + 1 };
                assert(b[qq] == y);
                assert(qq != i);
                assert(a.contains(y));
                let p = choose|p: int| 0 <= p < a.len() && a[p] == y;
                assert(p != a.len() - 1);
                assert(a2[p] == y);
            }
        }
        lemma_same_elements_same_multiset(a2, b2, f);
        assert(a.map_values(f) =~= a2.map_values(f).push(f(x)));
        assert(b.map_values(f) =~= b2.map_values(f).insert(i, f(x)));
        vstd::seq_lib::to_multiset_build(a2.map_values(f), f(x));
        vstd::seq_lib::to_multiset_insert(b2.map_values(f), i, f(x));
    }
}

/// The sorted list of enemy labels of an encounter.
pub fn npc_name_list(npcs: &Vec<NpcInfo>) -> (r: Vec<String>)
    requires
        name_counts_fit(enemy_names(npcs@)),
    ensures
        texts_sorted(string_views(r@)),
        string_views(r@).to_multiset() == npc_labels(npcs@).to_multiset(),
{
    let n = npcs.len();
    let ghost all_names = enemy_names(npcs@);
    let mut counts = NameCounts::new();
    let mut i: usize = 0;
    while i < n
        invariant
            n == npcs@.len(),
            i <= n,
            all_names == enemy_names(npcs@),
            name_counts_fit(all_names),
            forall|x: Seq<char>| #[trigger]
                name_count_entries(counts).contains_key(x) <==> enemy_names(npcs@.take(i as int)).contains(x),
            forall|x: Seq<char>| #[trigger]
                name_count_entries(counts).contains_key(x) ==> name_count_entries(counts)[x] == occurrences(
                    enemy_names(npcs@.take(i as int)),
                    x,
                ),
        decreases n - i,
    {
        let ghost pre = enemy_names(npcs@.take(i as int));
        assert(npcs@.take(i + 1).drop_last() =~= npcs@.take(i as int));
        assert(npcs@.take(i + 1).last() == npcs@[i as int]);
        let npc = &npcs[i];
        if npc.entity_type != EntityType::Companion {
            let ghost post = pre.push(npc.name@);
            assert(post.drop_last() =~= pre);
            assert(enemy_names(npcs@.take(i + 1)) == post);
            let current = match counts.get(npc.name.as_str()) {
                Some(c) => c,
                None => 0,
            };
            proof {
                if !name_count_entries(counts).contains_key(npc.name@) {
                    lemma_occurrences_absent(pre, npc.name@);
                }
                lemma_enemy_names_grow(npcs@, i + 1, n as int, npc.name@);
                assert(npcs@.take(n as int) =~= npcs@);
                assert(occurrences(all_names, npc.name@) <= u32::MAX);
            }
            counts.insert(npc.name.clone(), current + 1);
            proof {
                assert forall|x: Seq<char>| #[trigger]
                    name_count_entries(counts).contains_key(x) <==> post.contains(x) by {
                    if post.contains(x) && x != npc.name@ {
                        let k = choose|k: int| 0 <= k < post.len() && post[k] == x;
                        assert(pre[k] == x);
                    }
                    if pre.contains(x) {
                        let k = choose|k: int| 0 <= k < pre.len() && pre[k] == x;
                        assert(post[k] == x);
                    }
                    assert(post[pre.len() as int] == npc.name@);
                }
            }
        } else {
            assert(enemy_names(npcs@.take(i + 1)) == pre);
        }
        i = i + 1;
    }
    assert(npcs@.take(n as int) =~= npcs@);
    let ghost table = name_count_entries(counts);
    let entries = counts.into_entries();
    let ghost keys = entries@.map_values(|e: (String, u32)| e.0@);
    // One label per name, with its count when it is above one
    let mut labels: Vec<String> = Vec::new();
    let mut k: usize = 0;
    while k < entries.len()
        invariant
            k <= entries@.len(),
            keys == entries@.map_values(|e: (String, u32)| e.0@),
            forall|q: int|
                0 <= q < entries@.len() ==> table.contains_key(#[trigger] entries@[q].0@)
                    && table[entries@[q].0@] == entries@[q].1,
            forall|x: Seq<char>| #[trigger]
                table.contains_key(x) ==> table[x] == occurrences(all_names, x),
            labels@.len() == k,
            forall|q: int|
                0 <= q < k ==> (#[trigger] labels@[q])@ == npc_label(keys[q], occurrences(all_names, keys[q])),
        decreases entries@.len() - k,
    {
        let c = entries[k].1;
        let mut label = entries[k].0.clone();
        if c > 1 {
            push_char(&mut label, ' ');
            push_char(&mut label, '(');
            push_decimal(&mut label, c as u64);
            push_char(&mut label, ')');
        }
        assert(keys[k as int] == entries@[k as int].0@);
        assert(label@ == npc_label(keys[k as int], c as nat));
        labels.push(label);
        k = k + 1;
    }
    proof {
        let f = |x: Seq<char>| npc_label(x, occurrences(all_names, x));
        let d = distinct_in_order(all_names);
        assert(string_views(labels@) =~= keys.map_values(f)) by {
            assert forall|q: int| 0 <= q < labels@.len() implies string_views(labels@)[q] == keys.map_values(f)[q] by {
                assert(labels@[q]@ == npc_label(keys[q], occurrences(all_names, keys[q])));
            }
        }
        assert(npc_labels(npcs@) =~= d.map_values(f));
        lemma_distinct_no_duplicates(all_names);
        assert(keys.no_duplicates()) by {
            assert forall|p: int, q: int| 0 <= p < keys.len() && 0 <= q < keys.len() && p != q implies keys[p]
                != keys[q] by {
                if p < q {
                    assert(entries@[p].0@ != entries@[q].0@);
                } else {
                    assert(entries@[q].0@ != entries@[p].0@);
                }
            }
        }
        assert forall|x: Seq<char>| keys.contains(x) <==> d.contains(x) by {
            lemma_distinct_contains(all_names, x);
            if keys.contains(x) {
                let p = choose|p: int| 0 <= p < keys.len() && keys[p] == x;
                assert(table.contains_key(entries@[p].0@));
            }
            if table.contains_key(x) {
                let p = choose|p: int| 0 <= p < entries@.len() && entries@[p].0@ == x;
                assert(keys[p] == x);
            }
        }
        lemma_same_elements_same_multiset(keys, d, f);
    }
    sort_texts(labels)
}

// ─── Summaries ───────────────────────────────────────────────────────────────

/// The views of an optional string.
pub open spec fn opt_text(o: Option<String>) -> Option<Seq<char>> {
    match o {
        Some(s) => Some(s@),
        None => None,
    }
}

/// The rendering of a log timestamp in milliseconds with a chrono format
/// pattern, or `None` when chrono cannot represent the time.
pub uninterp spec fn log_time_text(ms: i64, pattern: Seq<char>) -> Option<Seq<char>>;

/// `%Y-%m-%dT%H:%M:%S`: ISO 8601 date and time to the second.
pub open spec fn iso_seconds_pattern() -> Seq<char> {
    seq!['%', 'Y', '-', '%', 'm', '-', '%', 'd', 'T', '%', 'H', ':', '%', 'M', ':', '%', 'S']
}

/// The text of a log timestamp under the ISO 8601 (seconds) pattern.
///
/// Trusted: `chrono::DateTime::from_timestamp_millis` gives the UTC time for
/// the milliseconds (`None` when out of range) and `NaiveDateTime::format`
/// renders it with the pattern; the result is named by `log_time_text`. The
/// pattern is held to the one whose items chrono always renders, since
/// `to_string` panics on a pattern that fails to format.
#[verifier::external_body]
fn format_log_time(ms: i64, pattern: &str) -> (r: Option<String>)
    requires
        pattern@ == iso_seconds_pattern(),
    ensures
        opt_text(r) == log_time_text(ms, pattern@),
{
    match chrono::DateTime::from_timestamp_millis(ms) {
        Some(t) => Some(t.naive_utc().format(pattern).to_string()),
        None => None,
    }
}

/// The text of an optional log timestamp under the ISO 8601 (seconds) pattern.
pub open spec fn time_text(t: Option<i64>) -> Option<Seq<char>> {
    match t {
        Some(ms) => log_time_text(ms, iso_seconds_pattern()),
        None => None,
    }
}

/// The area the encounter took place in: its own record, else the current area.
pub open spec fn summary_area_name(e: CombatEncounter, area: AreaInfo) -> Seq<char> {
    match e.area_name {
        Some(n) => n@,
        None => area.area_name@,
    }
}

/// The area id used to classify the encounter.
pub open spec fn summary_area_id(e: CombatEncounter, area: AreaInfo) -> i64 {
    match e.area_id {
        Some(a) => a,
        None => area.area_id,
    }
}

/// The difficulty id used to classify the encounter.
pub open spec fn summary_difficulty_id(e: CombatEncounter, area: AreaInfo) -> i64 {
    match e.difficulty_id {
        Some(d) => d,
        None => area.difficulty_id,
    }
}

/// The difficulty name of the encounter: its own record, else the current
/// area's when that is not empty.
pub open spec fn summary_difficulty(e: CombatEncounter, area: AreaInfo) -> Option<Seq<char>> {
    match e.difficulty_name {
        Some(d) => Some(d@),
        None => if area.difficulty_name@.len() == 0 {
            None
        } else {
            Some(area.difficulty_name@)
        },
    }
}

/// The boss an encounter is named after: the active definition's boss, else
/// the primary boss NPC's.
pub open spec fn summary_boss_name(e: CombatEncounter, game: GameData) -> Option<Seq<char>> {
    match e.active_definition() {
        Some(d) => Some(d.name@),
        None => match primary_boss(e, game) {
            Some(b) => Some(game.bosses@[b].boss@),
            None => None,
        },
    }
}

/// An encounter in `area_name` starts a new phase: the first encounter, or one
/// in another area than the last summary's.
pub open spec fn starts_phase(v: HistoryView, area_name: Seq<char>) -> bool {
    v.summaries.len() == 0 || v.summaries.last().area_name@ != area_name
}

/// The phase type a summary records.
pub open spec fn summary_type(e: CombatEncounter, area: AreaInfo, game: GameData) -> PhaseType {
    classified_phase(e, summary_area_id(e, area), summary_difficulty_id(e, area), game)
}

/// The history when the summary's name is chosen: pull counts reset at a
/// new phase.
pub open spec fn history_before_naming(e: CombatEncounter, area: AreaInfo, v: HistoryView) -> HistoryView {
    if starts_phase(v, summary_area_name(e, area)) {
        with_counts(v, (no_boss_pulls(), 0))
    } else {
        v
    }
}

/// The summary's display name and the history after naming it.
pub open spec fn summary_naming(
    e: CombatEncounter,
    area: AreaInfo,
    v: HistoryView,
    game: GameData,
) -> (Seq<char>, HistoryView) {
    next_name(history_before_naming(e, area, v), summary_type(e, area, game), summary_boss_name(e, game))
}

/// `s` is the summary of encounter `e`, made in `area` with history `v`,
/// with the given texts of its start and end times.
pub open spec fn summarizes(
    s: EncounterSummary,
    e: CombatEncounter,
    area: AreaInfo,
    v: HistoryView,
    game: GameData,
    start_time: Option<Seq<char>>,
    end_time: Option<Seq<char>>,
) -> bool {
    &&& s.encounter_id == e.id
    &&& s.display_name@ == summary_naming(e, area, v, game).0
    &&& s.encounter_type == summary_type(e, area, game)
    &&& opt_text(s.start_time) == start_time
    &&& opt_text(s.end_time) == end_time
    &&& s.duration_seconds == (match e.duration_seconds {
        Some(d) => d,
        None => 0,
    })
    &&& s.success == encounter_succeeded(e)
    &&& s.area_name@ == summary_area_name(e, area)
    &&& opt_text(s.difficulty) == summary_difficulty(e, area)
    &&& opt_text(s.boss_name) == summary_boss_name(e, game)
    &&& s.is_phase_start == starts_phase(v, summary_area_name(e, area))
    &&& texts_sorted(string_views(s.npc_names@))
    &&& string_views(s.npc_names@).to_multiset() == npc_labels(e.npcs@).to_multiset()
    &&& s.area_entered_line == (match e.area_entered_line {
        Some(l) => Some(l),
        None => area.entered_at_line,
    })
    &&& s.event_start_line == e.first_event_line
    &&& s.event_end_line == e.last_event_line
    &&& s.parsely_link is None
}

fn clone_opt_string(o: &Option<String>) -> (r: Option<String>)
    ensures
        opt_text(r) == opt_text(*o),
{
    match o {
        Some(s) => Some(s.clone()),
        None => None,
    }
}

/// Create an EncounterSummary from a completed CombatEncounter
///
/// Encounters that never entered combat give `None`. Otherwise the summary
/// is made by [`summarize_encounter`], with the start and end times rendered
/// as ISO 8601 text.
pub fn create_encounter_summary(
    encounter: &CombatEncounter,
    area: &AreaInfo,
    history: &mut EncounterHistory,
    game: &GameData,
) -> (r: Option<EncounterSummary>)
    requires
        encounter.well_formed(),
        encounter.enter_combat_time is Some ==> can_name(
            history_before_naming(*encounter, *area, old(history)@),
            summary_boss_name(*encounter, *game),
        ),
        encounter.enter_combat_time is Some ==> name_counts_fit(enemy_names(encounter.npcs@)),
    ensures
        r is None <==> encounter.enter_combat_time is None,
        r is None ==> final(history)@ == old(history)@,
        r matches Some(s) ==> summarizes(
            s,
            *encounter,
            *area,
            old(history)@,
            *game,
            time_text(encounter.enter_combat_time),
            time_text(encounter.effective_end_time),
        ),
        r is Some ==> final(history)@ == summary_naming(*encounter, *area, old(history)@, *game).1,
{
    // Skip encounters that never started combat
    if encounter.enter_combat_time.is_none() {
        return None;
    }
    let pattern = "%Y-%m-%dT%H:%M:%S";
    proof {
        reveal_strlit("%Y-%m-%dT%H:%M:%S");
        assert(pattern@ =~= iso_seconds_pattern());
    }
    let start_time = match encounter.enter_combat_time {
        Some(t) => format_log_time(t, pattern),
        None => None,
    };
    let end_time = match encounter.effective_end_time {
        Some(t) => format_log_time(t, pattern),
        None => None,
    };
    Some(summarize_encounter(encounter, area, history, game, start_time, end_time))
}

/// The summary of a completed encounter, given the texts of its start and
/// end times.
///
/// The summary is named (which counts the pull in `history`, after resetting
/// the counts when the encounter starts a new phase) and filled from the
/// encounter, falling back on the current area where the encounter has no
/// record.
pub fn summarize_encounter(
    encounter: &CombatEncounter,
    area: &AreaInfo,
    history: &mut EncounterHistory,
    game: &GameData,
    start_time: Option<String>,
    end_time: Option<String>,
) -> (s: EncounterSummary)
    requires
        encounter.well_formed(),
        can_name(
            history_before_naming(*encounter, *area, old(history)@),
            summary_boss_name(*encounter, *game),
        ),
        name_counts_fit(enemy_names(encounter.npcs@)),
    ensures
        summarizes(s, *encounter, *area, old(history)@, *game, opt_text(start_time), opt_text(end_time)),
        final(history)@ == summary_naming(*encounter, *area, old(history)@, *game).1,
{
    // Use encounter's stored area/difficulty info (falls back to the current area if not set)
    // This ensures we use the area where the fight took place, not where player ended up
    let area_id_for_classification = match encounter.area_id {
        Some(a) => a,
        None => area.area_id,
    };
    let difficulty_id_for_classification = match encounter.difficulty_id {
        Some(d) => d,
        None => area.difficulty_id,
    };
    let encounter_area_name = match &encounter.area_name {
        Some(n) => n.clone(),
        None => area.area_name.clone(),
    };

    // Check if this is a new phase (area change)
    // Compare encounter's area_name with the last summary's area_name
    let count = history.summaries.len();
    let is_phase_start = if count == 0 {
        // First encounter is always a phase start
        true
    } else {
        !(history.summaries[count - 1].area_name == encounter_area_name)
    };
    assert(history@.summaries.len() > 0 ==> history@.summaries.last() == history.summaries@[count
        - 1]);

    // Reset pull counts on phase change (area transition)
    // This ensures encounter numbering restarts from 1 in each new area
    if is_phase_start {
        history.reset_pull_counts();
    }

    // Classify using encounter's area info
    let (encounter_type, boss_info) = classify_encounter(
        encounter,
        area_id_for_classification,
        difficulty_id_for_classification,
        game,
    );

    // Get boss name: prefer active definition, fall back to detected boss NPC
    let boss_name: Option<String> = match encounter.active_boss_idx {
        Some(idx) => Some(encounter.boss_definitions[idx].name.clone()),
        None => {
            // Only fall back to hardcoded data if a boss NPC was actually seen
            if encounter.any_boss_npc() {
                match boss_info {
                    Some(b) => Some(b.boss.clone()),
                    None => None,
                }
            } else {
                None
            }
        },
    };
    let display_name = match &boss_name {
        Some(b) => history.generate_name(encounter_type, Some(b.as_str())),
        None => history.generate_name(encounter_type, None),
    };

    // Use encounter's stored difficulty (falls back to the current area if not set)
    let difficulty = match &encounter.difficulty_name {
        Some(d) => Some(d.clone()),
        None => if area.difficulty_name.unicode_len() == 0 {
            None
        } else {
            Some(area.difficulty_name.clone())
        },
    };

    // Collect NPC names with counts (show count only if > 1)
    // Companions are friendly NPCs, not enemies
    let npc_names = npc_name_list(&encounter.npcs);

    let summary = EncounterSummary {
        encounter_id: encounter.id,
        display_name,
        encounter_type,
        start_time,
        end_time,
        duration_seconds: match encounter.duration_seconds {
            Some(d) => d,
            None => 0,
        },
        success: determine_success(encounter),
        area_name: encounter_area_name,
        difficulty,
        boss_name: clone_opt_string(&boss_name),
        is_phase_start,
        npc_names,
        // Use encounter's area_entered_line (set when combat started) instead of the current area's
        area_entered_line: match encounter.area_entered_line {
            Some(l) => Some(l),
            None => area.entered_at_line,
        },
        event_start_line: encounter.first_event_line,
        event_end_line: encounter.last_event_line,
        // Parsely link (set after successful upload)
        parsely_link: None,
    };
    summary
}

// ─── Restoring the numbering ─────────────────────────────────────────────────

/// The history after naming each summary of `s` in turn, starting from `v`,
/// each by its type and boss.
pub open spec fn naming_run(v: HistoryView, s: Seq<EncounterSummary>) -> HistoryView
    decreases s.len(),
{
    if s.len() == 0 {
        v
    } else {
        next_name(naming_run(v, s.drop_last()), s.last().encounter_type, opt_text(s.last().boss_name)).1
    }
}

/// Each summary of `s` carries the name that naming it in turn from `v`
/// gave it (with no pull counter at its maximum before).
pub open spec fn named_in_turn(v: HistoryView, s: Seq<EncounterSummary>) -> bool {
    forall|i: int|
        0 <= i < s.len() ==> {
            &&& can_name(naming_run(v, s.take(i)), opt_text((#[trigger] s[i]).boss_name))
            &&& s[i].display_name@ == next_name(
                naming_run(v, s.take(i)),
                s[i].encounter_type,
                opt_text(s[i].boss_name),
            ).0
        }
}

/// Rebuilding the pull counts from the summaries of a phase gives back the
/// counts that naming them left: a history restored from imported summaries
/// goes on numbering where the live one would have.
pub proof fn law_rebuilt_counts_continue_numbering(v: HistoryView, s: Seq<EncounterSummary>)
    requires
        v.boss_pull_counts == no_boss_pulls(),
        v.trash_pull_count == 0,
        named_in_turn(v, s),
    ensures
        counts_from(s) == (naming_run(v, s).boss_pull_counts, naming_run(v, s).trash_pull_count),
    decreases s.len(),
{
    if s.len() > 0 {
        let d = s.drop_last();
        assert forall|i: int| 0 <= i < d.len() implies {
            &&& can_name(naming_run(v, d.take(i)), opt_text((#[trigger] d[i]).boss_name))
            &&& d[i].display_name@ == next_name(
                naming_run(v, d.take(i)),
                d[i].encounter_type,
                opt_text(d[i].boss_name),
            ).0
        } by {
            assert(d.take(i) =~= s.take(i));
            assert(d[i] == s[i]);
        }
        law_rebuilt_counts_continue_numbering(v, d);
        let last = s.last();
        let k = s.len() - 1;
        assert(s.take(k) =~= d);
        assert(s[k] == last);
        let w = naming_run(v, d);
        match last.boss_name {
            Some(b) => {
                let count = pulls_of(w.boss_pull_counts, b@) + 1;
                law_boss_pull_number_reads_back(b@, count as u32);
            },
            None => {
                law_trash_pull_number_reads_back(last.encounter_type, (w.trash_pull_count + 1) as u32);
            },
        }
    }
}

// ─── Players and challenges a summary keeps ──────────────────────────────────

/// A player the encounter saw: their entity id and when they were last seen
/// (milliseconds on the log's clock).
pub struct PlayerSeen {
    pub entity_id: i64,
    pub last_seen_at: Option<i64>,
}

/// The part of a metrics row that decides whether a summary keeps it.
pub struct MetricRow {
    pub entity_id: i64,
    pub entity_type: EntityType,
}

/// Seen at or after the start of combat (always, when the start is unknown).
pub open spec fn seen_since(last_seen_at: Option<i64>, combat_start: Option<i64>) -> bool {
    match combat_start {
        None => true,
        Some(start) => last_seen_at matches Some(t) && t >= start,
    }
}

/// The first record of player `id` shows them seen during combat.
pub open spec fn seen_in_combat(players: Seq<PlayerSeen>, id: i64, combat_start: Option<i64>) -> bool {
    exists|i: int|
        0 <= i < players.len() && (#[trigger] players[i]).entity_id == id && (forall|j: int|
            0 <= j < i ==> (#[trigger] players[j]).entity_id != id) && seen_since(
            players[i].last_seen_at,
            combat_start,
        )
}

/// A metrics row is kept when it is not an NPC's and its player was seen
/// during combat (a character switched away before the pull is dropped).
pub open spec fn keeps_metrics(row: MetricRow, players: Seq<PlayerSeen>, combat_start: Option<i64>) -> bool {
    row.entity_type != EntityType::Npc && seen_in_combat(players, row.entity_id, combat_start)
}

/// The positions, in order, of the first `n` rows that are kept.
pub open spec fn kept_metric_rows(
    rows: Seq<MetricRow>,
    players: Seq<PlayerSeen>,
    combat_start: Option<i64>,
    n: int,
) -> Seq<usize>
    decreases n,
{
    if n <= 0 {
        Seq::empty()
    } else if keeps_metrics(rows[n - 1], players, combat_start) {
        kept_metric_rows(rows, players, combat_start, n - 1).push((n - 1) as usize)
    } else {
        kept_metric_rows(rows, players, combat_start, n - 1)
    }
}

/// Whether the first record of player `id` shows them seen during combat.
fn player_seen_in_combat(players: &[PlayerSeen], id: i64, combat_start: Option<i64>) -> (r: bool)
    ensures
        r == seen_in_combat(players@, id, combat_start),
{
    let n = players.len();
    let mut i: usize = 0;
    while i < n
        invariant
            n == players@.len(),
            i <= n,
            forall|j: int| 0 <= j < i ==> (#[trigger] players@[j]).entity_id != id,
        decreases n - i,
    {
        if players[i].entity_id == id {
            let seen = match combat_start {
                None => true,
                Some(start) => match players[i].last_seen_at {
                    Some(t) => t >= start,
                    None => false,
                },
            };
            proof {
                if !seen && seen_in_combat(players@, id, combat_start) {
                    let k = choose|k: int|
                        0 <= k < players@.len() && (#[trigger] players@[k]).entity_id == id && (forall|j: int|
                            0 <= j < k ==> (#[trigger] players@[j]).entity_id != id) && seen_since(
                            players@[k].last_seen_at,
                            combat_start,
                        );
                    if k > i {
                        assert(players@[i as int].entity_id == id);
                    }
                }
            }
            return seen;
        }
        i = i + 1;
    }
    false
}

/// The metrics rows a summary keeps, by position, in order: players (and
/// companions) seen during combat, never NPCs.
pub fn metric_rows_kept(rows: &[MetricRow], players: &[PlayerSeen], combat_start: Option<i64>) -> (r: Vec<usize>)
    ensures
        r@ == kept_metric_rows(rows@, players@, combat_start, rows@.len() as int),
{
    let n = rows.len();
    let mut kept: Vec<usize> = Vec::new();
    let mut i: usize = 0;
    while i < n
        invariant
            n == rows@.len(),
            i <= n,
            kept@ == kept_metric_rows(rows@, players@, combat_start, i as int),
        decreases n - i,
    {
        let row = &rows[i];
        if row.entity_type != EntityType::Npc && player_seen_in_combat(players, row.entity_id, combat_start) {
            kept.push(i);
        }
        i = i + 1;
    }
    kept
}

/// The positions, in order, of the first `n` challenges that counted an
/// event.
pub open spec fn challenges_with_events(event_counts: Seq<u32>, n: int) -> Seq<usize>
    decreases n,
{
    if n <= 0 {
        Seq::empty()
    } else if event_counts[n - 1] > 0 {
        challenges_with_events(event_counts, n - 1).push((n - 1) as usize)
    } else {
        challenges_with_events(event_counts, n - 1)
    }
}

/// The challenges a summary keeps, by position, in order: those that
/// counted at least one event.
pub fn challenges_kept(event_counts: &[u32]) -> (r: Vec<usize>)
    ensures
        r@ == challenges_with_events(event_counts@, event_counts@.len() as int),
{
    let n = event_counts.len();
    let mut kept: Vec<usize> = Vec::new();
    let mut i: usize = 0;
    while i < n
        invariant
            n == event_counts@.len(),
            i <= n,
            kept@ == challenges_with_events(event_counts@, i as int),
        decreases n - i,
    {
        if event_counts[i] > 0 {
            kept.push(i);
        }
        i = i + 1;
    }
    kept
}

/// Contribution `a` is listed before contribution `b`: a larger value
/// first, equal values in their given order.
pub open spec fn listed_before(values: Seq<i64>, a: int, b: int) -> bool {
    values[a] > values[b] || (values[a] == values[b] && a < b)
}

/// The order of a challenge's per-player contributions: by value,
/// descending, equal values keeping their given order (a stable sort).
pub fn order_by_value_desc(values: &[i64]) -> (r: Vec<usize>)
    ensures
        r@.len() == values@.len(),
        forall|k: int| 0 <= k < r@.len() ==> #[trigger] r@[k] < values@.len(),
        forall|k: int, l: int|
            0 <= k < l < r@.len() ==> listed_before(values@, #[trigger] r@[k] as int, #[trigger] r@[l] as int),
{
    let n = values.len();
    let mut order: Vec<usize> = Vec::new();
    let mut i: usize = 0;
    while i < n
        invariant
            n == values@.len(),
            i <= n,
            order@.len() == i,
            forall|k: int| 0 <= k < order@.len() ==> #[trigger] order@[k] < i,
            forall|k: int, l: int|
                0 <= k < l < order@.len() ==> listed_before(
                    values@,
                    #[trigger] order@[k] as int,
                    #[trigger] order@[l] as int,
                ),
        decreases n - i,
    {
        // The first place whose contribution is smaller than this one
        let m = order.len();
        let mut p: usize = 0;
        while p < m && values[order[p]] >= values[i]
            invariant
                m == order@.len(),
                n == values@.len(),
                i < n,
                p <= m,
                forall|k: int| 0 <= k < m ==> #[trigger] order@[k] < i,
                forall|k: int| 0 <= k < p ==> values@[#[trigger] order@[k] as int] >= values@[i as int],
            decreases m - p,
        {
            p = p + 1;
        }
        let ghost before = order@;
        order.insert(p, i);
        proof {
            assert forall|k: int, l: int|
                0 <= k < l < order@.len() implies listed_before(
                values@,
                #[trigger] order@[k] as int,
                #[trigger] order@[l] as int,
            ) by {
                if l < p {
                    assert(order@[k] == before[k] && order@[l] == before[l]);
                } else if l == p {
                    assert(order@[k] == before[k]);
                    assert(values@[before[k] as int] >= values@[i as int]);
                } else if k < p {
                    assert(order@[k] == before[k] && order@[l] == before[l - 1]);
                } else if k == p {
                    assert(order@[l] == before[l - 1]);
                    assert(values@[before[p as int] as int] < values@[i as int]);
                    if l - 1 > p {
                        assert(listed_before(values@, before[p as int] as int, before[l - 1] as int));
                    }
                } else {
                    assert(order@[k] == before[k - 1] && order@[l] == before[l - 1]);
                }
            }
            assert forall|k: int| 0 <= k < order@.len() implies #[trigger] order@[k] < i + 1 by {
                if k < p {
                    assert(order@[k] == before[k]);
                } else if k > p {
                    assert(order@[k] == before[k - 1]);
                }
            }
        }
        i = i + 1;
    }
    order
}

// ─── Laws on summaries, classification and success ───────────────────────────

proof fn lemma_difficulty_index_first(ds: Seq<Difficulty>, id: i64, i: int)
    requires
        0 <= i < ds.len(),
        ds[i].difficulty_id == id,
        forall|j: int| 0 <= j < i ==> (#[trigger] ds[j]).difficulty_id != id,
    ensures
        difficulty_index(ds, id) == Some(i),
    decreases ds.len(),
{
    if i < ds.len() - 1 {
        let d = ds.drop_last();
        assert(d[i] == ds[i]);
        assert forall|j: int| 0 <= j < i implies (#[trigger] d[j]).difficulty_id != id by {
            assert(d[j] == ds[j]);
        }
        lemma_difficulty_index_first(d, id, i);
    } else {
        lemma_difficulty_index_none(ds.drop_last(), id);
    }
}

proof fn lemma_difficulty_index_none(ds: Seq<Difficulty>, id: i64)
    requires
        forall|j: int| 0 <= j < ds.len() ==> (#[trigger] ds[j]).difficulty_id != id,
    ensures
        difficulty_index(ds, id) is None,
    decreases ds.len(),
{
    if ds.len() > 0 {
        let d = ds.drop_last();
        assert forall|j: int| 0 <= j < d.len() implies (#[trigger] d[j]).difficulty_id != id by {
            assert(d[j] == ds[j]);
        }
        lemma_difficulty_index_none(d, id);
        assert(ds[ds.len() - 1].difficulty_id != id);
    }
}

/// A summary is classified and named by where the fight took place: when
/// the encounter recorded its own area and difficulty, those decide its type
/// whatever the current area is; otherwise the current area's fill in. The
/// name is the next pull name of that type.
pub proof fn law_summary_classified_where_fought(
    s: EncounterSummary,
    e: CombatEncounter,
    area: AreaInfo,
    v: HistoryView,
    game: GameData,
    start_time: Option<Seq<char>>,
    end_time: Option<Seq<char>>,
)
    requires
        summarizes(s, e, area, v, game, start_time, end_time),
    ensures
        e.area_id matches Some(a) ==> (e.difficulty_id matches Some(d) ==> s.encounter_type == classified_phase(
            e,
            a,
            d,
            game,
        )),
        e.area_id is None ==> (e.difficulty_id matches Some(d) ==> s.encounter_type == classified_phase(
            e,
            area.area_id,
            d,
            game,
        )),
        e.difficulty_id is None ==> (e.area_id matches Some(a) ==> s.encounter_type == classified_phase(
            e,
            a,
            area.difficulty_id,
            game,
        )),
        e.area_id is None && e.difficulty_id is None ==> s.encounter_type == classified_phase(
            e,
            area.area_id,
            area.difficulty_id,
            game,
        ),
        s.display_name@ == next_name(
            history_before_naming(e, area, v),
            s.encounter_type,
            summary_boss_name(e, game),
        ).0,
{
}

/// How an encounter is classified: a training dummy (the primary boss's
/// content or the active definition's area) makes a dummy parse; otherwise a
/// PvP area makes a PvP match; otherwise the first difficulty with the id
/// decides by its group size: 8 or 16 players a raid, 4 a flashpoint, any
/// other size open world, as is an unknown difficulty.
pub proof fn law_classification_rules(e: CombatEncounter, area_id: i64, difficulty_id: i64, game: GameData, i: int)
    ensures
        e.active_definition() matches Some(def) && def.area_type == AreaType::TrainingDummy ==> classified_phase(
            e,
            area_id,
            difficulty_id,
            game,
        ) == PhaseType::DummyParse,
        primary_boss(e, game) matches Some(b) && game.bosses@[b].content_type == ContentType::TrainingDummy
            ==> classified_phase(e, area_id, difficulty_id, game) == PhaseType::DummyParse,
        ({
            let no_dummy = !(e.active_definition() matches Some(def) && def.area_type == AreaType::TrainingDummy)
                && !(primary_boss(e, game) matches Some(b) && game.bosses@[b].content_type
                == ContentType::TrainingDummy);
            let ds = game.difficulties@;
            let first = 0 <= i < ds.len() && ds[i].difficulty_id == difficulty_id && forall|j: int|
                0 <= j < i ==> (#[trigger] ds[j]).difficulty_id != difficulty_id;
            &&& no_dummy && game.pvp_area_ids@.contains(area_id) ==> classified_phase(
                e,
                area_id,
                difficulty_id,
                game,
            ) == PhaseType::PvP
            &&& no_dummy && !game.pvp_area_ids@.contains(area_id) && first && (ds[i].group_size == 8
                || ds[i].group_size == 16) ==> classified_phase(e, area_id, difficulty_id, game)
                == PhaseType::Raid
            &&& no_dummy && !game.pvp_area_ids@.contains(area_id) && first && ds[i].group_size == 4
                ==> classified_phase(e, area_id, difficulty_id, game) == PhaseType::Flashpoint
            &&& no_dummy && !game.pvp_area_ids@.contains(area_id) && first && ds[i].group_size != 4
                && ds[i].group_size != 8 && ds[i].group_size != 16 ==> classified_phase(
                e,
                area_id,
                difficulty_id,
                game,
            ) == PhaseType::OpenWorld
            &&& no_dummy && !game.pvp_area_ids@.contains(area_id) && (forall|j: int|
                0 <= j < ds.len() ==> (#[trigger] ds[j]).difficulty_id != difficulty_id)
                ==> classified_phase(e, area_id, difficulty_id, game) == PhaseType::OpenWorld
        }),
{
    let ds = game.difficulties@;
    if 0 <= i < ds.len() && ds[i].difficulty_id == difficulty_id && forall|j: int|
        0 <= j < i ==> (#[trigger] ds[j]).difficulty_id != difficulty_id {
        lemma_difficulty_index_first(ds, difficulty_id, i);
    }
    if forall|j: int| 0 <= j < ds.len() ==> (#[trigger] ds[j]).difficulty_id != difficulty_id {
        lemma_difficulty_index_none(ds, difficulty_id);
    }
}

/// Success is the victory trigger's verdict only where that trigger applies
/// (an active boss with a victory trigger that names no difficulty, or names
/// the encounter's); everywhere else it is the wipe heuristic's verdict, so
/// a likely wipe is never a success there.
pub proof fn law_success_rules(e: CombatEncounter)
    ensures
        ({
            let applies = e.active_definition() matches Some(def) && def.has_victory_trigger && (
            def.victory_trigger_difficulties@.len() == 0 || (e.difficulty matches Some(d) && exists|k: int|
                0 <= k < def.victory_trigger_difficulties@.len()
                    && (#[trigger] def.victory_trigger_difficulties@[k])@ == d.config_key@));
            &&& applies ==> encounter_succeeded(e) == e.victory_triggered
            &&& !applies ==> encounter_succeeded(e) == !e.likely_wipe
            &&& !applies && e.likely_wipe ==> !encounter_succeeded(e)
        }),
{
}

proof fn lemma_occurrences_present(s: Seq<Seq<char>>, x: Seq<char>)
    requires
        occurrences(s, x) > 0,
    ensures
        s.contains(x),
{
    if !s.contains(x) {
        lemma_occurrences_absent(s, x);
    }
}

/// The enemy list shows each enemy name once, with its count when the name
/// occurs more than once: `Trooper (3)` for a name seen three times, the bare
/// name for one seen once (companions are not enemies). A list with the same
/// labels, such as the one `npc_name_list` returns, holds those labels.
pub proof fn law_enemy_labels_show_counts(npcs: Seq<NpcInfo>, x: Seq<char>, listed: Seq<String>)
    requires
        string_views(listed).to_multiset() == npc_labels(npcs).to_multiset(),
    ensures
        ({
            let c = occurrences(enemy_names(npcs), x);
            &&& c >= 2 ==> npc_labels(npcs).contains(x + seq![' ', '('] + nat_digits(c) + seq![')'])
            &&& c >= 2 ==> string_views(listed).contains(x + seq![' ', '('] + nat_digits(c) + seq![')'])
            &&& c == 1 ==> npc_labels(npcs).contains(x)
            &&& c == 1 ==> string_views(listed).contains(x)
        }),
{
    let names = enemy_names(npcs);
    let c = occurrences(names, x);
    if c > 0 {
        lemma_occurrences_present(names, x);
        lemma_distinct_contains(names, x);
        let d = distinct_in_order(names);
        let i = choose|i: int| 0 <= i < d.len() && d[i] == x;
        let labels = npc_labels(npcs);
        assert(labels[i] == npc_label(x, c));
        assert(labels.contains(npc_label(x, c)));
        vstd::seq_lib::to_multiset_contains(labels, npc_label(x, c));
        vstd::seq_lib::to_multiset_contains(string_views(listed), npc_label(x, c));
    }
}

} // verus!
