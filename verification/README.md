# shellrs

A small interactive shell ("Warlock Shell") whose decisions live in a library
verified with Verus.

- `src/` — the verified library:
  - `lib.rs`: `~` expansion and condensing, the home directory, the command
    plan of a line (`parse_commands`), the prompt, the shell loop's next step;
  - `text.rs`: character-level text operations (white space, trimming, word
    splitting, searching) with the sequence functions that define them;
  - `configs.rs`: the configuration file's path and its line-by-line parse;
    `configs/config_map.rs` the key/value map; `configs/shell_modules.rs` the
    prompt color, pipe planning, the step-by-step running of a chain, and
    aliases;
  - `commands/builtins.rs`: where `type` looks for a program, and the
    argument vector a program is started with;
  - `system.rs`: the path type the shell reads (a path's text, where it is
    Unicode) and the calls into `dirs` and `whoami`.
- `app/` — the program: reading input, printing, files, and starting
  processes with `nix`.
- `tests/` — tests of the library on concrete values.
