# lunar-bundler

A Lua bundler: it walks the `require()` calls from an entry file and emits a
single Lua file with a small runtime shim that replaces `require()`, with a
source map in development builds.

## Layout

- `src/` is the verified library. Its functions have contracts that Verus
  proves, except the small trusted wrappers around calls into std and the
  outside crates (`serde_json`, `glob-match`, `dirs`), marked
  `#[verifier::external_body]`, whose contracts restate what those calls do:
  - `graph` — the dependency walk as a state machine (`GraphBuilder`): each
    step takes what the requested file-system work produced and answers with
    the next work; a finished graph has each module once, dependencies before
    the modules that require them, the entry last, and, when the answers come
    from one file system and resolver, exactly the files reached from the
    entry through found requirements, each after what it requires, with no
    cycle among them.
  - `resolver` — module names to files, externals and overrides.
  - `emitter`, `sourcemap` — the bundle text and its source map, with the
    proof that the map points at the lines where each module's source stands
    (for module paths and names without line endings).
  - `minify`, `preprocessor`, `treeshake` — source transformations.
  - `compat`, `sandbox`, `scanner` — what the checks decide about what the
    Lua parser reports.
  - `bundler` — the verdicts of the checks, the transformations and emission
    of a walked graph.
  - `config`, `cli`, `loader`, `luarocks`, `scaffold` — configuration, option
    handling, loader rules, LuaRocks trees and project templates.
- `app/` is the command-line program: argument parsing, files, processes,
  the Lua parser's syntax-tree walks, and the loop that drives the walk.
- `tests/` runs the library on concrete inputs.
