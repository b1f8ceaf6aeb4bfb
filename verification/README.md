# petal_browser

A light web browser with its own chrome: tabs, an address bar with history,
a host-only ad blocker, a settings page and a memory trimmer. Pages are
rendered by the system's web view.

- `src/` is the verified library: the IPC protocol between web views and the
  host and who may send what, the tab list, the address bar's editing model
  and layout, the pixel drawing of the chrome, the ad blocker, the settings
  and their legacy migration, the trimming schedule, and the pieces of a web
  view the browser computes itself (placement, reports, injected script,
  `petal://` pages).
- `app/` is the program around it: the window and event loop, the web views,
  the clipboard, the settings file on disk and the calls that measure and
  trim memory.
- `tests/` exercises the library.

The window needs `font_8x16.bin` (the 8x16 bitmap font, 16 row bytes per
glyph in code point order, at least 128 glyphs) next to the executable or in
the working directory; `Petal_icon.png` is used as the window icon when it
is found there too.

Building `app/` also needs the web view crate `wry` (0.37) and, on
Windows, `webview2-com`, `windows-core` and `windows-sys`. `Cargo.toml` does
not list them, so `app/` does not build from this manifest alone; the
library and its tests do not use them.
