# recover

Records commands and their output in SQLite and queries them later.

- `src/` is the verified library: date expressions (`timequery`), filter tokens
  (`filter`), the settings file (`config`), run selection and the SQL plan (`query`),
  the list and detail views (`render`), the stored form of runs (`stored`), the
  command-line decisions (`cli`), the export
  format (`archive`), text decoding (`text`), chrono calls on plain timestamps
  (`calendar`), character helpers (`chars`), and properties that span several
  functions (`laws`).
- `app/` is the program around it: argument dispatch, the SQLite store, the
  pseudo-terminal recorder, the pager and JSON files.
- `tests/` runs the library on concrete values.
