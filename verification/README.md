# task_manager

A small task tracker written as a verified library: tasks with priorities and
tags, a task store, an archive for finished tasks, a change history,
notifications, composable filters, and several text renderings (CSV,
markdown, plain text, HTML, reports). Every function in `src/` carries a
contract; Verus proves all of them except three small wrappers around std
(appending a character, Unicode lower-casing, reading the clock), whose
contracts are trusted.

Layout:

- `src/` – the verified library, one module per concern (`task`, `store`,
  `archive`, `history`, `notifications`, `filters`, `formatter`, `export`,
  `reporting`, `reports`, `stats`), with shared building blocks in `text`
  (decimal numbers, byte-length prefixes, substring search), `seqs`
  (counting, stable ordering) and `urgency` (most-urgent-first sorting).
- `tests/` – tests run against the compiled library.
- `app/` – the demo program, JSON import and export (serde), and the parts
  that compute in floating point (urgency scores, completion rates, the
  progress bar's proportions).
