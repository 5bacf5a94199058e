# logseek

A local log viewer: it opens plain-text, JSON Lines and CSV log files,
indexes their lines, searches them (plain text or regular expressions, with
case and whole-word options and field filters), filters the lines shown,
follows files that grow, and keeps named workspaces of files.

The library under `src/` holds the viewer's logic with its contracts, proved
with Verus:

- `scan`, `index`, `cache`: finding line starts (sequentially, in parallel
  chunks, or incrementally after an append) and the byte format of the
  cached index.
- `decode`, `text`, `parser`: decoding log bytes (UTF-8, UTF-16 with a byte
  order mark, GBK, Shift_JIS, EUC-KR) and reading records of each format.
- `backend`, `query`, `ordering`, `highlight`: a source's records, searching
  them, ordering workspace results, and what the views highlight.
- `state`, `refresh`, `actions`: the application state and every change the
  user interface makes to it.
- `domain`, `session`, `workspace`, `theme`, `watcher`: the shared types.

`app/` is the egui window around the library: it reads and writes files
and the clipboard, and hands what it read to the library. The library reads
the clock itself, for workspace timestamps, through calls that cannot panic
(an unusable clock gives an empty timestamp).

`tests/` exercises the library on concrete inputs.
