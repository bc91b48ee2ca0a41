# mac_cleaner

A macOS cleanup utility with a desktop window: it measures caches, build
artifacts, dependency folders, stale downloads, large files, orphaned
application data and the leftovers of installed applications, lets the user
pick what to remove, shows every pick in a confirmation dialog, and removes
them (to the Trash first, with `rm -rf` as a fallback), or only previews the
removal in a dry run.

## Layout

- `src/` is the library, verified with Verus. It holds the decisions: which
  places a scan measures and how entries are numbered and labelled, how
  orphaned data is recognised and graded, which files belong to an
  application, the filter and the quick selections, the grouping of the
  cleanup list by section, the removal plan for each item and the report of
  each outcome, and the session state that the window keeps between frames.
  Sizes are written for people by an exact integer model of the floating
  point formatting.
- `app/` is the window and everything that touches the machine: egui and
  eframe, walking the disk with jwalk, `statfs` through libc, running
  `find`, `PlistBuddy`, `brew`, `docker`, `trash` and `rm`, threads and
  channels, and the few places that need floating point.
- `tests/` runs the library on concrete values.
