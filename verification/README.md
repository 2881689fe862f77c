# ripf

Interactive code search for the terminal: type a query, watch matches
appear, hit enter, and your editor opens at the exact line and column.
Content search runs ripgrep's engine (`grep-regex`, `grep-searcher`,
`ignore`); filename search runs `nucleo-matcher`.

## Layout

- `src/` is the library, verified with Verus. The tool's decisions live
  here, with their contracts; the program only coordinates its threads
  through them (`walk_should_quit`, `HitSink::is_current`, `admitted`):
  - `app` — the query line and its caret (kept on a char boundary), the
    selection, the marks, and what `enter` opens;
  - `keys` — parsing key bindings such as `alt-shift-p`, and matching key
    events against them;
  - `config` — which open command wins (`--open`, the config file,
    `$EDITOR`) and the resolved settings;
  - `open` — turning the open command into an argument vector, one argument
    per shell word, with `{file}`, `{line}` and `{col}` filled in;
  - `search::engine` — compiling the query (smart case), the type filter,
    and the hits a file's contents give, capped and batched;
  - `search::files` — ranking paths by fuzzy score, ties broken by path;
  - `print` — `--print`: sorted `file:line:col` lines and grep's exit codes;
  - `preview`, `view` — the preview window and the rows drawn on screen;
  - `rg` — the older engine that reads `rg --json`;
  - `rank`, `text` — sorting keys, and string helpers proved against
    their `str` counterparts.
- `app/` is the program around it: argument parsing (`clap`), the config
  and session files (`toml`, `serde_json`, `dirs`), walking the tree and
  reading files, threads, the terminal (`ratatui`) and running the editor.
- `tests/` exercise the library on concrete values, including `--print`
  end to end over an in-memory tree.

## Verified properties

Besides each function's contract, the library proves laws such as: the
printed results do not depend on the order a parallel walk found them in;
the filename ranking does not depend on the order of the walked paths;
bindings that differ only in case bind the same chord; backspace undoes a
typed character; the editor receives one argument per template word,
whatever the file path holds.
