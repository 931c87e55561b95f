# vibewrite95

A WordStar-style terminal markdown editor, written as a Verus library with a
thin terminal program around it.

- `src/` is the verified library: text and path handling, the markdown
  outline and syntax highlighting, formatting edits, the line diff, the spell
  checker, project file ordering, versioning records, key handling, the
  dialogs' state machines, and the main loop's decisions (which effects a
  request calls for, which step a dialog command takes). Each public function
  carries a contract; the `law_*` proof functions state properties that span
  several calls.
- `app/` is the program: command line, terminal set-up, the event loop that
  carries out the library's decisions, drawing with ratatui, the text area
  widget, and file, configuration and PDF work.
- `tests/` exercises the library on concrete values.
