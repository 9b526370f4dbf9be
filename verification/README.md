# testrunner

An input/output-based testing tool for courses teaching C and C++: it builds
a student's program, runs it on configured testcases (plain input/output, or
pseudo-interactive scripts), compares its output with reference output, and
reports the results as HTML and JSON.

Layout:

- `src/` — the library, verified with Verus: rendering of text, binary and
  interactive diffs as HTML columns; command lines, environment and valgrind
  log handling; parsing of interactive scripts and the state machine that
  plays them with a running program; build decisions and compiler warning
  counts; pass/fail rules.
- `app/` — the command-line program around it: configuration files, `make`,
  child processes, the text/binary diff algorithm (with its similarity
  ratio), files and the reports.
- `tests/` — tests of the library.
