# mechanical_junior

Runs small scripts that insert generated code into source files. A script
has three kinds of lines:

- `lang swift` sets the language;
- `def key "Prompt"` asks for the value of `key`;
- `file;startFinder;markerFinder;command` inserts the text of `command` into
  the first file whose path contains `file`, at the location that
  `markerFinder` gives after the location that `startFinder` gives.

Finders are `regex("pattern", before)`, `lineRegex("pattern", offset)` and
`lastInSectionOrFallback(finder, fallback, options...)`; the one command is
`enumCaseWithRaw(key, raw)`, whose arguments may be `$key` or
`camelCase(...)`.

Layout:

- `src/` — the library, verified with Verus: `text` (character operations),
  `model` (the commands), `string_utils` (parentheses and locations),
  `pattern` (regular expressions), `command_parser` (insertion lines),
  `execute` (insertions on file contents), `parse` (running a script line by
  line), `error`, and `laws` (properties proved of all inputs).
- `app/` — the program: configuration, files, the terminal.
- `tests/` — tests of the library on concrete inputs.
