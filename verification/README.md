# game_config_edit

The verified core of an editor for the CSV configuration files of a game: reading and
writing CSV documents byte for byte, type diagnostics of whole columns, declared-type checks,
search, the editing session with undo, redo and safe saves, workspace listing and trees,
settings, keyboard decisions and the layout arithmetic of the table views.

- `src/` is the library, written in Verus: every function carries a contract that Verus
  proves. Calls into `csv`, `serde_json`, `blake3`, `sys-locale` and the standard library's
  path and text functions go through small trusted wrappers whose contracts name what those
  functions return.
- `src/laws.rs` states properties that span several functions (a file saved untouched keeps
  its bytes, cycling forward then back returns, focus mode fills the table, ...).
- `tests/` exercises the library on concrete values.
- `app/` is the command-line program around it: file and directory access, the settings
  file, the file watcher, the search over files on disk and the pixel measurements of the
  table views.

Files in GB18030 are not converted: the library reads UTF-8 only, so such a file is refused as
invalid UTF-8, and the `Gb18030RequiresConversion` error variant is kept for callers but never
produced.
