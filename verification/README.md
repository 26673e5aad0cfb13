# java_manager

A terminal tool that keeps a list of Java installations and selects one of
them, by rewriting the `JAVA_HOME` and `PATH` exports of `~/.bashrc` on Linux
or the user environment in the registry on Windows.

- `src/` is the library, verified with Verus: the saved list and its
  operations (`env_variable`), the rewriting of the start-up file's text
  (`file_utils`), the menus and their key handling (`menu_command`), the
  platform decisions (`variation`), and the text operations they rest on
  (`text`).
- `app/` is the program around it: terminal drawing and input, files, the
  JSON data file, the registry.
- `tests/` runs the library on concrete values.
