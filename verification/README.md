# anduin

The state and decision logic of a Git client for coding-agent workflows, verified with
Verus, and a small command-line front end.

- `src/` is the verified library: parsing of `git` output and the argument lists of the
  `git` commands, the file tree of changed files and its sidebar rows, selection and
  keyboard navigation, the project-wide diff search, the history tab, the commit
  composer, the branch and project pickers, the discard dialog, the actions footer,
  shortcuts, settings and recent repositories.
- `app/` runs `git`, reads and writes the settings file and prints what the library
  computes (`status`, `tree`, `diff`, `search`, `commit`, `ignore`, `footer`, ...).
- `tests/` exercises the library on concrete values.
