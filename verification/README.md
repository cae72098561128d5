# umbriel_config

The verified core of a graphical configurator for the Umbriel compositor.

- `src/` is the library, written in Verus: every function carries a
  contract, and the laws that tie functions together (no schema entry is
  hidden from the page its sub-section lands on, the save popup lists
  exactly the keys the Save button counts, a discard resets exactly those,
  the keybind listing is ordered by group then chord, the guided setup never
  overwrites a value, an applied keybind draft reopens on the same action,
  the "Use for" checklist leaves each event using the shader exactly when
  ticked, ...) are proof functions beside them.
- `app/` is ordinary Rust around it: the GitHub queries of the update check
  and commit lines, the stamp file of the daily check, the file reads of the
  backup restore view, the community shader download, and the GLES worker
  of the shader preview.
- `tests/` runs the library on concrete values.

Outside crates: `semver` (version order, behind trusted wrappers in
`src/update.rs`), `similar` (unified diffs, `src/backups.rs`), and, in
`app/`, `ureq`, `serde`, `glow` and `khronos-egl`.
