# e_tui

The state, rules and text logic behind a terminal chat client, written in
Verus: every function in `src/` carries a `requires`/`ensures` contract that
Verus proves.

## Layout

- `src/` — the verified library.
  - `input.rs`, `input/` — the composer: editing, history, paste and image
    blocks, word deletion, completion popups and key handling.
  - `input_page.rs`, `login.rs`, `question.rs`, `history_page.rs`,
    `page_core.rs` — the modal pages and their focus model.
  - `projection/` — how agent events become transcript rows, tool groups and
    activity updates; `projection/store.rs` keeps the transcript indexed.
  - `execution_capture.rs`, `execution_history.rs` — execution records and
    the summaries built from them.
  - `link_copy.rs`, `link_copy/` — quick-copy links: classification of
    candidate text, discovery in a message (`discovery.rs`, over the events
    of the Markdown parser), validation, tagging and the tag suffixes placed
    into a line (`annotation.rs`).
  - `key_mapping.rs` — actions, scopes, chords (`Chord::parse`, labels),
    and `KeyMapping`: the bindings in effect per scope, resolving a key
    press to a command or text, labels, entries and conflict checks.
  - `help.rs` — the help page in Markdown, from the key mapping and the
    translated texts the caller passes in.
  - `mouse_selection.rs`, `interaction.rs`, `preview.rs`, `reading.rs`,
    `profile.rs`, `config.rs` and the rest — smaller models.
  - `text.rs`, `unicode.rs`, `debug_fmt.rs` — character-level helpers and
    the few calls into `std` formatting and the Unicode crates, each behind
    a trusted wrapper whose contract names or states its result.
- `tests/` — the tests, run against the compiled library.
- `app/` — the terminal-facing adapters (crossterm key events, a byte
  counting writer, startup timers) that Verus does not see.

## Outside crates

`unicode-segmentation`, `unicode-width`, `unicode-script` and
`pulldown-cmark` are called from `src/` through trusted wrappers;
`crossterm` is used by `app/` only.
