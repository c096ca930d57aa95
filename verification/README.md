# archive_assistant

Decisions behind a preprocessing tool for document archives, verified with Verus: which files of a
tree and which members of an archive are processed, by which commands, what becomes of them, and
what is recorded.

- `src/` is the library. It does no I/O: it says what to do next and is told what came of it.
  - `config`, `pattern`, `args`: rules, exclusions, and the command line that adds to them
  - `dispatch`: the commands that a rule runs and where their results are found
  - `archive`, `path`, `output`: names and formats of archives, and where the output goes
  - `member`, `repack`: repacking an archive as a ZIP, member by member and as a whole
  - `rewrite`: processing the members of a ZIP in place
  - `manifest`: the text that marks a ZIP as processed
  - `assistant`, `state`, `mtime`, `pdf`, `command`: walking a directory tree
  - `text`, `number`: strings and decimal numbers
- `app/` is the program around it: `archive-repack`, `archive-assistant` and `zip-rewriter`,
  one binary under three names.
- `tests/` runs the library on ZIPs in memory and on plain values.

What is taken on trust: glob matching (`glob`), the current time (`chrono`), and two functions of
the standard library (`String::push`, `String::from_utf8_lossy`). Each is stated where it is used.
