# shellshelf

A command-line tool and localhost web interface for storing, searching and
sharing reusable shell commands in personal shelves and team repositories.

The decisions of the tool live in a library written in Verus, where each
public function carries a contract that Verus proves:

- `src/` — the verified library: shelf databases (adding, saving, searching,
  merging), keyword extraction, shell-history parsing, command references and
  templates, configuration validation and path rules, command-line option
  rules, listing and JSON output, Postman import, the curl workbench (which
  commands may run, what request they make, reading curl's captured output,
  the store of response bodies), the browse data and previews of the web
  interface, and the decisions of repository synchronization and publishing.
- `app/` — the program around it: argument parsing, files, git and the
  GitHub CLI, the HTTP server and the curl process.
- `tests/` — tests of the library on concrete values.

The outside crates that compute on plain values (`regex`, `shell-words`) are
called from the library through small functions whose contracts state what
those crates return.
