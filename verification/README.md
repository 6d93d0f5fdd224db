# taskforge

A cron-style task scheduler whose logic is verified with Verus: parsing of
schedules (five-field cron expressions and `@` macros), the next occurrence
of a schedule, the task registry, the retry policy with exponential backoff
and the decisions of the retry loop, the log lines of the execution history
and the queries over them, and the text printed by the command line.

- `src/` — the verified library. Its public proof functions named `law_*`
  state the properties that hold across calls (what a lookup gives after a
  registration, that a written log line reads back as its record, that a
  cron occurrence is the first matching minute, how many runs the retry loop
  makes, ...).
- `app/` — the program around it: command-line parsing (clap), the TOML
  configuration file (serde, toml), running commands with timeouts and the
  supervisor's loop (tokio), and the `logs` directory.
- `tests/` — tests of the library on concrete values.

Dates are handled by `chrono`; the library calls it through a few trusted
functions in `src/clock.rs` and `src/history/store.rs`.
