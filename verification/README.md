# flog

The verified core of flog, a terminal log viewer for Flutter apps, written
in Verus.

- `src/` is the library. Its functions carry contracts that Verus proves:
  device discovery bookkeeping (adb, usbmuxd, localhost probing), the
  usbmuxd and lockdownd wire formats, transport planning, width-aware
  text wrapping, the JSON viewers (tokenizer, tree, fold state, toned and
  wrapped rows), the log list (viewport, row layout and row counts), the
  timeline buckets and statistics figures, the toolbar level row, the
  status bar and side panel layout, the log-detail sections and
  renderers, automatic highlighting, the input field and the device
  picker.
- Not everything in `src/` is proved. Calls into `serde_json`, `plist`,
  `regex`, `unicode-width` and a few std string and char functions go
  through sixteen small trusted wrappers (`#[verifier::external_body]`),
  plus one trusted `assume_specification` for `str` equality. Verus
  believes their contracts without proof; each wrapper's doc comment says
  what its contract claims of the outside function. Three outside types
  are declared so that values of them can be carried through. A few
  private helper functions have no contract of their own.
- `app/` is ordinary Rust around the library: processes, sockets and
  websockets for discovery, `flutter logs`, and ratatui drawing of the rows
  the library builds.
- `tests/` exercises the library on concrete inputs.
