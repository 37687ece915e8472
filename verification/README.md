# fxbrowser

A browser for large collections of sound effects. It indexes the audio files
below the folders it is given, describes them by their names, by the tables and
notes that lie next to them and by the sound itself, and lets its user search
the index and listen.

* `src/` is the library: what is indexed, how it is described, which SQL a
  search becomes, how the side panels are counted, how the player reacts. Every
  function states in its contract what it returns, and Verus proves that it
  does. Laws that span several functions are public proof functions next to
  them.
* `tests/` runs the library on concrete inputs, and its queries on a database in
  memory.
* `app/` is the desktop application around it: the window and its commands, the
  database, the file system, the audio device, and the arithmetic on samples.

Samples, durations and spectral features are floating-point numbers. Where the
library only hands them on, it is generic over their type; where it compares
them, it does so by their IEEE 754 bits.

Two outside interfaces are trusted: the csv crate's grammar, and a handful of
functions of the standard library on characters and strings. Their contracts
stand in `src/sidecar.rs` and `src/text.rs`.
