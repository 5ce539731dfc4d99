# reinfer_cli

The core of `re`, the command line client of the reinfer / UiPath IXP
platform, written in Verus: each function states what it computes in its
`requires` / `ensures`, and Verus proves the code against it.

## Layout

- `src/` — the verified library.
  - `config.rs`, `connection.rs`: named contexts in the configuration file
    and how the connection settings are chosen (command line, then context,
    then default).
  - `thousands.rs`: numbers grouped by thousands, with laws on the grouping.
  - `commands/prune/`: the backup-then-delete pass of `re prune` — backup
    file paths, line framing, CRC32 tallies, integrity checks, deletion
    batches, the deletion-set rules and the verify-everything-before-deleting
    state machine, with the laws that tie them together.
  - `commands/get/`, `commands/package/`, `commands/parse/`,
    `commands/task/`, `commands/update/`: argument validation, paging
    decisions, report counting, label merging and the other decisions of
    those commands.
  - `input.rs`: what an answer typed at a prompt means.
  - `text.rs`: string helpers and the few std string calls the library
    trusts.
- `tests/` — tests of the library on concrete values.
- `app/` — the `re` program around the library: argument parsing, the
  configuration file on disk, logging and terminal input.

Calls into other crates (`crc32fast`, `chrono`, `regex`, `encoding_rs`,
`url`) and a few std string and path functions sit behind small trusted
wrappers whose doc comments say what their contracts claim.
