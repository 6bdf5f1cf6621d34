# libsurfer

The verified core of the Surfer waveform viewer's editing features:
annotations (arrows and rectangles) and their groups, the Split Field and
Find Value dialogs, bus and split-field values, the variable filter, mouse
gesture zones and the file dialog filters.

Layout:

- `src/` — the library, written in Verus. Each public function states in its
  contract what it returns; the laws that relate several functions are
  public proof functions (named `lemma_*`) next to them. Calls into `num`,
  `regex`, `fuzzy-matcher` and `numeric-sort` go through small trusted
  wrappers whose documentation says what is assumed of them.
- `tests/` — tests of the library on concrete values.
- `app/` — the egui user interface around the library: dialogs, the
  annotation list, floating-point screen geometry, gesture directions,
  native file dialogs and the serde forms of the library's types.
