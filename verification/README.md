# hoox

`hoox` manages Git hooks declared in a `.hoox.conf` file (HOCON) at the
repository root: `hoox init` installs wrapper scripts for the 19 Git hooks, and
each wrapper calls `hoox run <hook>`, which runs the commands configured for
that hook, filtered by branch and changed files, cached, retried, timed out and
run in parallel as the configuration asks.

## Layout

- `src/` is the library, verified with Verus. It decides everything that does
  not touch the outside world:
  - `config.rs`: the configuration model, hook names, merging of included files;
  - `version.rs`: compatibility of configuration and CLI versions;
  - `matching.rs`: glob and regex selection of changed files (through `globset`
    and `regex`);
  - `hooks.rs`: batching of parallel commands, the checks before a command
    runs, its command line and environment, the decision after each attempt,
    result counting and the messages printed along the way;
  - `command_run.rs`: the course of one command as a state machine, from its
    checks to its result: it asks the program to read files, to read a script
    or to launch an attempt, and decides on what comes back;
  - `hook_run.rs`: the course of a hook run: its batches in order, the
    results, the shared cache, and the stop after the first failure;
  - `cache.rs`: the cache of command hashes (SHA-256 through `sha2`);
  - `report.rs`: what `hoox validate` and `hoox list` report;
  - `init.rs`, `reference.rs`: the starter configuration, the wrapper script
    and the names of generated documentation files;
  - `strmap.rs`, `text.rs`, `error.rs`: an insertion-ordered string map, text
    helpers and the library's errors.
- `app/` is the command-line program: argument parsing (`clap`), reading and
  writing files, HOCON parsing (`hocon`, `serde`), Git access (`git2`),
  spawning processes and threads, and documentation generation.
- `tests/` exercises the library from outside.
