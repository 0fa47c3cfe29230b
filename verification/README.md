# ogm

The backend of a games menu: it scans freedesktop `.desktop` files into a
game list (`state.json`), merges a curated catalog with user fragments,
tracks GitHub releases, web-page updates and SteamGridDB artwork, and
manages custom and hidden games.

- `src/` is the library, written in Verus: every function carries a
  contract and is proved against it, except a handful of small trusted
  wrappers around outside code (std string conversion and lowercasing,
  `Debug` quoting, `regex`, `sha2`, `serde_json`, HTTP reason phrases),
  whose contracts are taken as given. The parsers (desktop files, version
  strings and files, timestamps, service answers), the merge and
  reconciliation of the game list, sorting and filtering, ids and paths,
  and the decisions of each command live here.
- `app/` is the `ogm` command: argument parsing, file and network I/O,
  and the serde forms of the records.
- `tests/` exercises the library on concrete values.
