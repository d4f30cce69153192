# promrail

Git-native GitOps promotion: `prl` copies allowlisted files from one or
more source environments into a destination environment, keeps protected
directories untouched, merges Helm chart and container image versions,
asks for review where sources disagree, and records snapshots that can be
rolled back.

The library is written in Verus and proved against its contracts.

## Layout

- `src/` — the verified library.
  - `config.rs`, `config_doc.rs`: the configuration model, its validation,
    rule lookups (actions, source filters, priorities, version and config
    conflict resolution) and its reference documentation.
  - `files/`: allowlist, denylist, protected directories and filters.
  - `review/`: multi-source analysis, review artifacts and their decisions.
  - `versions/`: version extraction, conflict detection, merging, applying
    versions to YAML documents, configuration diffs and snapshots.
  - `commands/`: the decisions of the diff, promote and validate commands:
    what to copy, delete, preserve and record.
  - `display.rs`: what a promotion and a configuration diff print.
  - `git/diff.rs`: line diffs.
  - `ext.rs`: the calls into outside crates (serde_yaml, serde_json,
    globset, glob-match, regex, time, dirs and std's hasher), with the
    contracts the library relies on.
  - `laws.rs`: properties that span several functions, stated and proved.
  - `text.rs`, `paths.rs`, `keyed.rs`, `order.rs`, `yaml.rs`: text, path,
    keyed-list, version-order and YAML-value helpers with their models.
- `app/` — the `prl` program: command-line parsing (clap), logging (fern),
  the repository and file system (git2, walkdir), serde copies of the
  library's types, and terminal output (console).
- `tests/` — tests of the library.
