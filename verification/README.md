# alarm-clock

A countdown alarm for the terminal: `alarm-clock 1H30`, `alarm-clock at "tomorrow at 9am"`,
or `alarm-clock from-text` to pick a time out of pasted text.

- `src/` is the library, written in Verus. Every function there carries a contract that Verus
  proves: duration parsing, the scheduling grammar and its resolution in a time zone, the
  extraction of candidate times from text, the countdown timer, font rendering and layout,
  status and notification texts, the index of installed sounds, and the decisions taken while
  an alarm runs. Public proof functions named `law_*` state properties that span several
  functions or all inputs.
- The few calls into other crates (`chrono-tz` for zone offsets, `iana-time-zone`, `regex`)
  sit behind small trusted wrappers whose contracts are documented beside them.
- `app/` is the program around the library: argument parsing (`clap`), the configuration file
  (`serde`, `toml`, `directories`), prompts (`inquire`), the terminal (`crossterm`), signals
  (`ctrlc`), notifications and the file system.
- `tests/` exercises the library on concrete values.
