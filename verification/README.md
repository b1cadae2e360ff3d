# sto_clare

Analysis of Star Trek Online combat logs, as a verified library with a
command-line front end.

- `src/` is the library. Its functions carry contracts that Verus proves,
  except a handful of small wrappers around the standard library and chrono
  (marked `external_body`), whose contracts are believed as their
  documentation states them. The library covers parsing of record lines and
  of the parties they name, splitting the record stream into combats,
  crediting records to players and placing them in their damage and healing
  trees, hit, kill and heal tick counts, map and difficulty
  detection, combat names, the combats filter and the compare view's
  selection, the rows picked in a table, who is told of a refresh, the
  spreadsheet layout, the consolidation of rotated logs and the desktop entry.
- `app/` is the program around it: reading files, summing the decimal figures,
  writing spreadsheets, following a log, and the commands that drive all this.
- `tests/` runs the library on concrete inputs.

The library holds no decimal arithmetic: magnitudes reach it as their signs
(`NumberClass`) and are summed by the caller at the places the library gives.
