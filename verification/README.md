# ns_emu_cheats_downloader

A desktop tool that downloads cheat files for Nintendo Switch emulators from
several online databases and installs the selected cheats into a mod folder.

- `src/` is the library, verified with Verus: cheat-file parsing, HTML text
  cleaning, the per-provider logic that turns downloaded JSON or scraped HTML
  into cheats grouped by build id, the cheat manager's state (selection,
  toggling, the files an install writes) and the title filter of the database
  explorer. Each public function states its result in its `ensures`; the
  `law_*` proof functions state properties that span several functions.
- `tests/` runs the library on concrete inputs.
- `app/` is the `eframe` program around it: HTTP through `curl`, JSON through
  `serde_json`, the window, and the file writes.
