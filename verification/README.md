# cyber_timer

A cyberpunk-themed terminal countdown timer (`cyber-timer 30s "work:25m" 5m`),
split into a verified library and a thin terminal program.

- `src/` — the library, verified with Verus:
  - `text`: decimal rendering, Unicode whitespace trimming, string/char conversion;
  - `clock`: `format_time` (`HH:MM:SS` / `MM:SS`), the law that a reading
    gives its seconds back, and the law that distinct
    non-negative durations read differently;
  - `duration`: timer arguments (`30s`, `5min`, `2h`, `label:25m`), found with the
    `regex` crate's `(?i)(\d+)(sec|s|min|m|h)` and read by verified code;
  - `timers`: planning timers from the arguments (at most ten, `Task n` names,
    end offsets through chrono's `TimeDelta`), and a running timer's time left;
  - `display`: the text and layout decisions of the panel (rows, bars, labels,
    percentages, footer);
  - `control`: the event loop's decisions (keys, scrolling, one announcement per
    timer, when to wait for the exit key).
- `app/main.rs` — the program: arguments, terminal, input thread, notifications,
  drawing with ratatui, and the floating-point progress arithmetic.
- `tests/` — tests of parsing, formatting, display and control on concrete values.
