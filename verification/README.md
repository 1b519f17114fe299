# folder_cleaner

A desktop tool that tidies a folder: it lists what the folder holds, selects old files,
sends selected files to the recycle bin in batches, sorts loose files into folders by
kind, and finds files with the same content.

- `src/` is the library, verified with Verus: the listing model and its sorting, the
  selection rules, the deletion and sorting plans, the duplicate search, the settings
  file format, and the state machines behind the cleanup and duplicate-finder pages.
  Laws such as "sorting twice is sorting once", "the fingerprint ignores order and
  flags" and "duplicate groups are disjoint and share one hash" are proof functions there.
- `app/` is the program around it (egui window, disk access, threads); it hands the
  library plain values and carries out the commands the library returns.
- `tests/` runs the library on concrete listings.

Settings are kept in `settings.ini` beside the executable; scan caches live under the
system's temporary folder in `folder_cleaner/`.
