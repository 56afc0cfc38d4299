# Project Hub

A desktop manager for development projects: business projects group code projects, each with a
path per platform and an IDE to open it with. It detects installed IDEs, starts them on a
project, remembers recent launches in the tray, and exports and imports its whole configuration.

The library under `src/` holds the rules, verified with Verus:

- `text`, `tags`: trimming, tag normalization, and the JSON lists stored in text columns;
- `models`: the records;
- `paths`: path classification, the clock, launch targets found on the disk or through a PATH
  lookup;
- `store`: the built-in IDE definitions, what saving a record writes and how stored rows read
  back;
- `launch`: argument templates, Windows command-line quoting, the launch decision and the
  command started for it, revealing a path in the file manager;
- `detect`: the candidates of IDE detection;
- `transfer`: export bundles and the import plan;
- `tray`: the tray menu, recent projects and what a menu click asks for.

`app/` is the Tauri application around it: the SQLite store, processes, files, windows, the tray
and the global shortcut.
