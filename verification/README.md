# keycounter

Counts key presses per virtual-key code on Windows, without recording what
was typed or when.

- `src/` is the verified library (Verus): the snapshot message between the
  collector and the service (`protocol`), the `.kbd` record file
  (`records`), little-endian words (`words`), the collector's counters
  (`counter`), configuration rules (`config`), named-pipe transfer decisions
  (`pipe`), and what the viewer computes before drawing (`heatmap`, `text`).
  Each module states its laws as proof functions named `law_*`.
- `app/` holds the programs around it: the keyboard hook, the Windows
  service, the SVG viewer, the named-pipe calls and the file I/O.
- `tests/` runs the library on concrete values.
