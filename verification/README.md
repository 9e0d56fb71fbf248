# sts2_mod_sync

The verified core of a desktop tool that keeps the `mods` directory of a
game installation in step with an archive published on GitHub (or at any
download address), with backups, restores and a set of "common" mods that
are copied into every fresh `mods` directory.

- `src/` is the library, written in Verus: name and path rules, Steam
  library discovery, directory listings and backup bookkeeping, sync
  addresses, mirror fail-over, archive checks, and the step-by-step flow that
  swaps a new `mods` directory in. Every function carries a contract that
  Verus proves. Path functions take a `windows` flag and follow the rules
  of `std::path` on Windows or on Unix accordingly.
- `app/` is the thin layer that does the file-system and network work and
  exposes the commands that the user interface calls.
- `tests/` exercises the library on concrete values.
