# SmithSphere core

The logic of SmithSphere, a viewer that maps the whole impedance plane onto a
sphere and reads both halves on two planar charts, written in Verus and
proved against its contracts.

## Layout

- `src/` — the verified library.
  - `text` — character-sequence operations (trimming, splitting, lines,
    words, decimal text) with their specifications.
  - `i18n` — interface language.
  - `parse` — format detection and frequency units; `parse::csv` reads the
    layout of a table, `parse::touchstone` the structure of a Touchstone 1.x
    file, `parse::number` the grammar of a floating-point literal.
  - `expression` — the grammar of typed complex numbers such as `25+j30`.
  - `dataset`, `demo`, `dialogs`, `io` — provenance of traces, the shown
    variant, examples, input forms and loaded files.
  - `sphere`, `scene` — hemisphere regions, the shared selection, arrow-key
    stepping, and how a trace falls apart into runs on the sphere and on
    each chart.
- `app/` — a command-line program around the library. It holds what works
  on `f64`: complex arithmetic, impedance and reflection, the sphere mapping,
  the numbers of Touchstone files and tables, and the examples.
- `tests/` — tests of the library.

Numbers stay outside the library: where a decision depends on a value, the
caller reads the value and hands the library what it found (whether a token
is a number, the order of frequencies, the sign of a resistance), and the
library decides and reports.
