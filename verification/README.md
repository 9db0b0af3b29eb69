# terminal_demo

The verified core of a tiling-window financial-analytics workspace (Watchlist,
Chart, Details and a dozen other panels arranged in a dock), written in Verus.

- `src/panels.rs` — the panel catalogue (`Kind`: identifiers, titles,
  singleton kinds, the "+ Panel" menu), chart symbols, the seed and integer
  shape of synthetic candle series, order confirmation and "Ask AI" prompts.
- `src/calendar.rs` — economic-calendar impact levels, the impact filter,
  which events are listed for a date, panel labels, splitting reported
  figures into number and scale.
- `src/layouts.rs` — saved layouts kept in alphabetical order, presets, the
  active-layout pointer and the toolbar decisions around it.
- `src/dock.rs` — persisted dock layout trees and the pruning of
  toolbar-managed singleton panels before a layout is written.
- `src/workspace.rs` — bookkeeping of the singleton panels.
- `src/text.rs` — string equality and order, trimming, decimal formatting.
- `app/` — the desktop application around the library: the windowed user
  interface (panels, toolbar, status bar, dock workspace), reading and writing
  the persisted state as JSON under the user's configuration directory, and
  the floating-point chart, figure, font-size and frame-rate arithmetic.
- `tests/` — tests of the library on concrete values.
