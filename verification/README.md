# gardener

Keeps a system's file tree in order: modules of a configuration declare the
paths they own, and `gardener` finds what lies on disk without being
declared by an enabled module, checks that declared paths exist as declared,
and tells what a backup keeps.

## Layout

- `src/` is the verified library, checked by Verus.
  - `decl/tree` is the tree of declared paths, with its laws in
    `decl/tree/laws.rs`.
  - `decl/tmpfiles.rs` declares the paths the systemd-tmpfiles configuration
    creates.
  - `config.rs` lists the paths a configuration declares and builds the tree.
  - `fs/unix/walker.rs` holds what a walk over the file system decides at
    each entry.
  - `untracked.rs`, `tracked_paths.rs` and `backup/` are the checks built on
    the walk.
- `tests/` runs the library on concrete values.
- `app/` is the command-line program: it reads the configuration, runs
  `systemd-tmpfiles --cat-config`, walks the disk and prints what the library
  decides.
