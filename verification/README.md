# migoto_loader

The verified core of a loader that starts 3DMigoto into a game: it reads the
`[Loader]` section of `d3dx.ini`, converts between Rust strings and the wide
strings of the Windows API, checks the version resource of the 3DMigoto
module, and makes the decisions of the loader while it watches for the game
process (is this the target, is our module loaded, is a second copy loaded,
when to inject, when to stop).

- `src/` is the library, verified with Verus: `text` (character model),
  `ini`, `wide`, `config`, `version`, `process`.
- `app/` is the Windows program around it: window, mutex, file and process
  APIs, hooks and remote threads.
- `tests/` runs the library on concrete inputs.
