# Backup Buddy

A small server that keeps a list of backup policies (back up, exclude, or leave
undecided a path, optionally with everything below it) and reports which files
under a base directory no policy covers.

- `src/` is the verified library: the policy model and its stored form, policy
  identifiers, path components, the rules that pick the policy governing a path
  (`coverage`), the missing-policy scan as a state machine (`report`), the
  new-policy form, durations in words, configuration and schema migrations.
- `tests/` exercises the library on concrete values.
- `app/` is the server around it: configuration from the environment, the SQLite
  store, the HTML pages, and the workers that walk the base directory.
