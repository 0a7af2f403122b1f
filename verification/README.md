# rootrat

A dotfiles manager: track files and directories, and keep them in step
between the system and a git-backed repo.

## Layout

- `src/` is the verified library (Verus). The commands (`status`, `diff`,
  `apply`, `collect`, `add`, `rm`, `init`) work on the manifest and on a
  snapshot of what the disk holds (`fsview::FsView`), and return entries and
  the changes to make (`commands::FsAction`). Their contracts say exactly
  which entries come out, in which order, and which read failure stops them:
  a manifest's entries are listed in key order (`StringMap::pairs`, with
  `string_map::lemma_entries_of` to write them out for a given map).
  `commands::consistency` proves that the commands agree on each file, that
  carrying out the changes of an apply or collect plan leaves its files
  unchanged for all of them and a second plan with nothing to do, and that
  diff with a filter shows exactly the unfiltered entries for that file;
  `manifest` proves that adding is idempotent, that removing undoes adding,
  that a path written as the manifest writes it leads back to the same
  place (by components), and that distinct paths never share a repo copy.
  Paths are handled as `std::path::Path` handles them.
  `commands::walk` decides what a walk of a tracked directory keeps, one
  directory at a time (`walk_dir`), and reads `.gitignore` files from
  their bytes (`gitignore_lines`).
- `app/` is the command-line program: argument parsing, the TOML files,
  reading the disk into a snapshot and each directory of a walk, running
  `git`, and carrying out the changes.
- `tests/` runs the library on concrete snapshots.
