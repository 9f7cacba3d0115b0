# alpm_cleaner

A terminal package browser for Arch Linux: check installed packages, see
live what `pacman -Rns` (or `-Rnsc` with cascade) would remove, as pacman's
own dry run (`pacman -Rs[c] --print`) reports it, and apply the removal.

The decisions and the text of every pane are a library verified with Verus;
the terminal, the threads and the processes are a thin program around it.

## Layout

- `src/` — the verified library
  - `text.rs`, `numbers.rs`, `order.rs`: characters, trimming, lines,
    decimal numbers, human-readable sizes, name order and sorting
  - `db.rs`: the local pacman db (`desc` files), `pacman -Qm` output,
    sorting by name, the name index, reverse dependencies
  - `resolve.rs`: pacman's dry-run output turned into a removal preview,
    the preview's arguments, picking the wanted worker result
  - `privilege.rs`: how root is gained and the removal command
  - `app.rs`: the browser state: filters, sorting, cursors, checked
    packages, preview requests
  - `keys.rs`: what each key does in each mode
  - `ui.rs`, `panes.rs`: what each pane shows
- `tests/` — the tests, run against the compiled library
- `app/main.rs` — the terminal program (ratatui, crossterm), the preview
  worker thread, process spawning and file reading

Environment: `ALPM_CLEANER_DB` overrides the db path; `ALPM_CLEANER_PRIV`
or `SUDO` choose the privilege prefix (blank runs directly), else `sudo`,
`doas` or `run0` is used, whichever is installed first.
