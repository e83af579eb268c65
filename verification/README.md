# tseq

A verified library for the tseq sequencing language of a modular audio
application, and for the session files of that application.

- `src/` is the library, verified with Verus: the grammar of tseq texts and its
  parsers, the scheduling of the lines and sequences a text defines, the tick
  computations of sequence events, and the reading and writing of session
  declarations. Each public function states its result in its contract; the
  laws that relate several functions are public proof functions (`lemma_*`).
- `tests/` runs the library on concrete values.
- `app/` is a command line front end: it checks tseq texts, lists (and
  rewrites) the declarations of a session file, and shows where the settings
  are kept.
