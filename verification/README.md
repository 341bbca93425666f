# tokentank

A gas gauge for coding-assistant usage, in the system tray: live fuel levels
for the 5-hour session window and the weekly quota, the burn rate in
API-equivalent dollars per hour, and the plan multiple, measured from local
JSONL transcripts.

## Layout

- `src/` — the library, verified with Verus:
  - `text` — character-level helpers (Unicode whitespace, trimming, words,
    `:` splitting, lines, decimal numbers, number parsing, lower-casing);
  - `json` — the JSON values a transcript line is read as, and the parse of
    a line's text into one;
  - `parser` — what a transcript line contributes (time, usage-limit notice,
    token counts and price tier), the retention cut, and the per-file read
    offsets with the laws of incremental reading;
  - `timeline` — the time-ordered events, session blocks, the weekly window
    and the time ranges a snapshot reports on;
  - `config` — plans, ceiling estimates, the weekly anchor and the layering
    of the shared config file under the setup wizard's settings;
  - `clock` — wall clock and local calendar;
  - `icon` — the tray icon raster;
  - `display` — durations and the tooltip text.
- `app/` — the tray application: file system access, settings files,
  floating-point cost arithmetic and the tray UI.
- `tests/` — tests of the library on concrete values.
