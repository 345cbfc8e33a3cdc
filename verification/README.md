# vertical_tabs

A vertical tab bar for Zellij, with its logic verified by Verus.

- `src/` is the library. Format strings and colours (`format`, `color`,
  `style`), the list layout (`layout`, `panel`, `label`, `lines`, `rows`,
  `render`), the plugin state and what it does with events, pipe messages and
  command output (`state`, `events`, `plugin`, `clicks`, `commands`, `poll`,
  `compare`), and the properties that hold across calls (`laws`). Calls into
  `unicode-width`, `serde_json` and the parts of std that Verus has no
  specification for sit behind small trusted wrappers whose contracts say what
  is assumed of them.
- `app/` is the plugin itself: it converts the host's events and messages into
  the library's values, reads the JSON that fills the library's records,
  performs the actions the library returns and prints the rows it draws.
- `tests/` runs the library on concrete inputs.

Live activity reports are not read: the module that reads and draws them is
not part of this crate. The library takes each tab's activity rows as an
input (`State::filas_extra`, `State::render`); the app passes none and treats
activity messages as unread, so they do not redraw the bar.
