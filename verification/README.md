# oyo

A verified library for a terminal diff viewer that steps through changes one
at a time. The library is written in Verus: each public function states in
its `requires` / `ensures` what it does, and Verus proves the code against
it.

## Layout

- `src/` — the verified library.
  - `diff.rs`: the line diff (common prefix and suffix kept, the middle part
    along a longest common subsequence), its changes, hunks and counts, and
    the navigator a session keeps per file.
  - `multi.rs`: a diff session over several files, loaded from git changes,
    file pairs or two directories; background diffs, refreshing, context
    trimming.
  - `viewer.rs`, `frame.rs`, `dashboard.rs`: what each key, mouse event and
    frame of the viewer and of the dashboard decides; `file_views.rs`: the
    scroll positions and visits kept per file.
  - `key_sequences.rs`: matching key presses against bound key sequences,
    and the checks and overrides that settle a mode's bindings.
  - the other modules: configuration, command line decisions, git output
    parsing, hunk and conflict navigation, review comments and their editor,
    search, patches and yanks, scrolling and windows.
  - `laws.rs` and the `law_*` proof functions of each module: properties
    that span several calls.
- `tests/` — tests of the library on concrete values.
- `app/` — the command line program around the library: argument handling,
  reading files, git and directories, and printing.
