# Kalendar

A keyboard-first terminal calendar whose core is written in Verus: the data model, the
interface's state machine, the week layout and the text handling carry contracts that
Verus proves.

## Layout

- `src/` — the verified library.
  - `date.rs`, `time.rs`: days as day numbers, local instants, week and month ranges.
  - `model.rs`: calendars, events, patches, ranges.
  - `mock.rs`: the in-memory demo calendar store, with read-after-write laws.
  - `config.rs`: configuration defaults, normalisation and the visible hours.
  - `app.rs`: the interface state (`App`), the event editor, the range cache and every
    state transition; work that needs a calendar backend is split into a `plan_`/`prepare_`
    step that says what to fetch or write and a `finish_` step that takes the answer.
  - `reducer.rs`, `keys.rs`: from key presses to actions, commands and effects.
  - `geometry.rs`: placing a day's timed events in rows and side-by-side slots.
  - `screen.rs`, `format.rs`: what the screen shows — columns, boxes, labels, texts.
  - `event_details.rs`, `text.rs`: reading descriptions (HTML, iCalendar escapes) and
    finding meeting links.
  - `cli.rs`: command-line options.
  - `bridge.rs`: framing requests to the EventKit helper and reading its replies.
- `tests/` — tests of the library on concrete values.
- `app/` — the program around the library: terminal, drawing with ratatui, the EventKit
  helper process, the configuration file, logging.

Verify with Verus on `src/lib.rs`; the outside crates are listed in `Cargo.toml`.
