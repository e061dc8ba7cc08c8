# discrip

Rips Blu-ray discs and DVDs, names the results the way Jellyfin expects them, and
transcodes them, on one machine or on several that share a directory.

- `src/` is the library: the tables of a DVD, the analysis of a disc, file names,
  stream plans, timestamps, the life of a shared job. Every function states what it
  returns, and Verus proves it of all but eight: seven private functions that call
  `chrono`, `uuid` or the standard library, and `String::push`. What those are
  believed to do stands above each of them.
- `app/` is the program around it: the command line, the disc, codec and web
  libraries, files and threads.
- `tests/` runs the library on concrete values.

Times on a disc are counted in ticks of a 90 kHz clock. Paths are texts with `/`
between their parts.
