# deskvio

The core of Deskvio, a local-first hub for personal Git repositories, as a
library verified with Verus: the rules for repository releases and their
asset files, per-repository project metadata, the hub database around SQLite,
cloning and cancelling clones, overwriting a repository from its remote,
unpacking ZIP imports, and moving application data from its older locations.

## Layout

- `src/` — the verified library.
  - `text.rs`, `paths.rs` — strings as character sequences, and the component
    model of Unix paths (`components`, `join`, `file_name`, `starts_with`).
  - `releases.rs` — release entries, safe stored-asset paths, unique versions,
    what a save writes and which asset files it deletes, where an imported
    asset goes; laws about saving and about asset paths.
  - `repo_meta.rs` — `.deskvio/project.json` and worktree-relative paths.
  - `db.rs` — the hub database (`rusqlite`), row decoding, tags as JSON,
    search patterns, the tree-listing cache rules.
  - `hub.rs` — search, pruning, safe deletion, directory removal retries,
    release-file import rules, registration, base64 of file contents.
  - `clone.rs` — accepted clone URLs and destinations, clone directory names,
    progress lines, the registry of running clones, clone outcomes.
  - `remote_update.rs`, `db_open.rs`, `migrate.rs` — state machines for
    overwriting from a remote, opening the database with repair, and moving
    application data from its older locations; the caller performs the I/O they ask for.
  - `zip_import.rs` — opening an archive (`zip`), reading each entry's name,
    safe path and size, archive limits and the decision for each entry.
  - `sys.rs` — the clock, random identifiers and file-system probes.
- `tests/` — tests of the library on concrete values.
- `app/` — the application around the library: start-up, file and process
  I/O, the serialized forms of the records, and the command handlers.

## Platforms

Paths are handled as text with `/` as the separator, following the component
rules of `std::path::Path` on Unix and macOS. Windows drive letters, `\\?\`
prefixes and `\` separators are not part of this model, so on Windows the
path checks (such as which paths count as absolute) are stricter than the
platform's own. ZIP entries are unpacked only when the `zip` crate gives them
a safe path and that path also stays inside the import directory under this
model.

## The database

The hub database keeps, as ghost state, the writes asked of SQLite in order
(`Database::requests`); each writing method states the request it makes, and
the functions built on them (`register_repo`, `prune_missing_repos`,
`merge_project_file_into_db`) state the sequence of requests they make. What
SQLite does with them is not modelled.
