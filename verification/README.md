# ClipPlus

Clipboard history for Windows, kept in a synced folder so that what was copied on one
machine can be searched and pasted on another.

Every machine writes only below its own folder, one database per month:

    <sync root>/<machine id>/<yyyy-MM>/clips.db      one row per clip
    <sync root>/<machine id>/<yyyy-MM>/<stem>.bin    an image, or a text too long to inline
    <sync root>/<machine id>/<yyyy-MM>/<stem>.pin    an empty marker: this clip is pinned
    <sync root>/<machine id>/<yyyy-MM>/<stem>.del    an empty marker: this clip is to go

One writer per file is what makes a sync conflict impossible. A clip in another machine's
running month is never deleted from here; it is marked, hidden at once, and taken out by the
machine that owns it.

## Layout

- `src/` is the library: everything that is decided or computed, verified with Verus. The
  index and its search, the capture and deletion plans, the bitmap and image formats, the
  hotkey spelling, the settings form, the layout of the windows, and the state behind them.
  `laws.rs` and `readback.rs` state what holds across several of these.
- `app/` is the program around it: Win32, the file system, SQLite, the settings file and the
  file watcher. It reports what happened as plain values and does what comes back.
- `tests/` runs the library.

Outside crates are called from the library in two places: `sha2` for the content hash and
`png` for the image files.
