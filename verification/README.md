# rust-dock

A dock for the Hyprland compositor, built with GTK4 and layer-shell: pinned
apps on one side, running apps on the other, live window previews on hover,
drag & drop reordering, pywal colours and hot-reloaded configuration.

The decisions the dock makes are a library verified with Verus; the GTK
program around it builds widgets, runs timers and talks to the system.

## Layout

- `src/` — the verified library (`rust_dock`):
  - `text` — character sequences: splitting, joining, trimming, parsing
    integers and booleans, lowercasing.
  - `app_info` — finding an app's `.desktop` entry by pinned id or window
    class, with a memo of lookups; cleaning Exec lines; icon names.
  - `hyprland_handler` — reading `hyprctl … -j` output (windows, monitors,
    workspaces, options), the short-lived window-list cache, the event
    socket's lines, screenshot plans.
  - `config`, `cli` — the INI configuration, its defaults and clamping, the
    pinned list and its file, command-line overrides.
  - `dock` — window layer, anchors and margins, the pinned and running
    sections, preview placement, the hover state machine, window cycling,
    capture scheduling.
  - `icons`, `style`, `session` — icon lookup, stylesheet sizes and layers,
    application id, event batching and signals.
- `app/` — the GTK program (`main`), file and process I/O, watchers.
- `tests/` — tests of the library on concrete values.

The laws the library states are its public `law_*` proof functions.
