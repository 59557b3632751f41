# game_scanner

Finds installed games and the launchers that manage them.

- `src/` is the library, verified with Verus: launcher names and the
  capability table, the Epic Games manifest rules, the registry key rules,
  and the Xbox / Microsoft Store discovery model (the `.GamingRoot` file
  format, the reading of `AppxManifest.xml`, the folder and manifest
  selection rules, the package and process matching rules). Its functions
  take what was read from the machine as plain values and do no I/O.
- `app/` does the I/O around it: files and folders, the process table, the
  registry and, on Windows, the package manager.
- `tests/` runs the library on concrete values.
