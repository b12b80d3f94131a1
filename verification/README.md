# baras

Verified logic of a combat-log analyzer: how numbers and durations are
displayed, how encounters are classified, named and summarized, how boss
counters react to log events, signals and timers, and how phases are colored.

Every function in `src/` carries a contract that Verus proves; the public
proof functions named `law_*` state properties that hold across calls (for
example, that rebuilding pull counts from saved summaries continues the live
numbering, or that the signals of a counter step replay its moves exactly).

- `src/text.rs` – digits, padding, text order and equality.
- `src/formatting.rs` – compact, grouped and duration formats.
- `src/names.rs` – counts per name in a `hashbrown` map.
- `src/encounter.rs`, `src/combat.rs` – encounter data, game tables, counter values.
- `src/summary.rs` – encounter history, pull numbering, classification, summaries.
- `src/dsl.rs`, `src/matching.rs` – triggers, entity filters and their matching.
- `src/signals.rs`, `src/counter.rs` – log events, game signals, counter triggers.
- `src/timeline.rs` – phase colors.
- `src/usage.rs`, `src/series.rs` – grouping of cast rows and chart rows, forward-filled series.
- `src/selection.rs` – which entity the charts show, highlighted effects, the edited counter list.
- `app/` – floating-point formatting and serde forms of the library's types.
- `tests/` – the library's tests.
