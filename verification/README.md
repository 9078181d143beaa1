# Nimble

Nimble is a keyboard launcher: typing a phrase runs a command defined in a
YAML file — open a URL, paste or copy text, pick from a TSV list, or run a
script that produces a list or values.

This crate is its core, written in Verus. Each public function carries a
contract (`requires` / `ensures`) over mathematical models of its inputs and
results, and Verus proves the code meets it.

## Layout

- `src/` — the verified library (`nimble`):
  - `schema` — the command schema;
  - `files`, `loader` — which files are command files, load order, and
    loading with duplicate, reserved-phrase, skipped-file and advisory
    warnings;
  - `paths`, `env`, `lists`, `scripts` — `script:` / `list:` resolution,
    environment layering (`env.yaml` files and inline `env:`), TSV lists,
    and the outcome and output of script runs;
  - `launcher` — URL resolution, clipboard text checks, deep links and the
    context state file;
  - `watcher`, `debug_log`, `deploy`, `focus`, `migration` — the decisions
    behind live reloading, the debug log, deploying the bundled skill,
    focus restoration and moving the config directory;
  - `text` — string helpers specified over character sequences.
- `tests/` — tests of the library.
- `app/` — the desktop shell (Tauri): windows, tray, shortcuts, files,
  processes and the clipboard, calling the library for every decision.

Calls into `serde_yaml`, `serde_json` and `std` functions without a Verus
specification go through small trusted wrappers whose contracts name or
state what those functions return; their doc comments say what is assumed.
