# veal

veal is a desktop lab for inspecting vector datasets. A project is a zip
archive (`.veal`) holding `config.json`, a `data/` directory with the initial
dataset (`.json` or `.npy`), and a `reports/` directory.

- `src/` is the library, verified with Verus:
  - `recent` — the recent-projects list and the laws it keeps (bounded,
    newest first, one entry per path, idempotent re-opening);
  - `paths` — where the application keeps its configuration;
  - `project` — project configuration, archive layout, and the checks made
    before an archive is opened;
  - `archive` — reading and writing archives in memory through the `zip`
    crate;
  - `dataset` — which JSON texts are vectors or matrices (parsed through
    `serde_json`), and which vector a selection picks.
- `app/` is the program around it: file and directory access, reading the
  floating-point values out of JSON and NPY files, statistics, and the handlers that update the
  window's state.
