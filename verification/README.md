# dsh_launcher

The core of a launcher that manages isolated instances of the DeepSeek
Harness (`dsh`): several instances, each with its own installed dsh version,
home directory, workspace and port.

`src/` is a Verus-verified library; `app/` is the Tauri application around
it (commands, files, processes, network); `tests/` exercises the library.

Library modules:

- `text` – character-level operations (`White_Space`, trimming, searching,
  UTF-8 length) proved against spec functions.
- `layout` – paths as a root plus appended components, and command-line
  arguments (fixed texts or paths; no shell is involved).
- `instance` – instance ids (the central path-traversal check), id
  generation from display names, directory layout, metadata edits, listing.
- `ports` – port selection around a caller-supplied "is this port free" probe.
- `state` – running processes and per-instance bounded log buffers.
- `process` – reading the Web UI address from process output, start/stop
  checks, `taskkill` outcomes, the boot environment file.
- `settings` – settings defaults, data root and registry resolution.
- `versions` – package paths, registry whitelist, release channels, the
  installed version.
- `release` – semantic versions (via `semver`), publication times (via
  `chrono`) and the ordering of the download list.
