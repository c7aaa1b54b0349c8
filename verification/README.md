# gravity_notes

The core of a notes backend that keeps every note as a Markdown file in a folder the user picked.
Its rules are proved with Verus: which paths it touches, what it does to the files, what it lists,
which windows it opens and which changes it tells them.

- `src/` is the library. It touches no disk and no window. A command on the folder is a job: ask it
  for its next operation, perform that, hand the answer back, until the job has ended. The modules
  whose names end in `_laws` state what holds of whole runs: that a command stays in its folder,
  that a save is all or nothing, that what was written is what is read, that a rename loses nothing,
  that nothing is opened twice.
- `tests/` runs the commands on a disk in memory and holds names, paths and texts against the
  standard library.
- `app/` is the application around the library: it performs the operations on the real disk, watches
  folders, and makes windows and menus.

Paths are byte strings with `/` between the names. Times are milliseconds since the epoch.
