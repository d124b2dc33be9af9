# splogbook

Verified station logic of a ham-radio logbook, written in Verus.

`src/` is the library; every function in it carries a contract that Verus
proves:

- `wol` — MAC address parsing and Wake-on-LAN magic packets.
- `spots` — park (POTA) and summit (SOTA) references in DX-cluster spot
  comments, and the spot list's filter.
- `layout` — the docked tile layout of the main window: column listings,
  renumbering, moving, detaching and hiding tiles, and their laws.
- `logbook_table` — the logbook's search, its stable sort by column, page
  bounds and column headers.
- `history` — undo and redo of deletions from the log.
- `duplicates` — which QSOs of each duplicate group are marked for deletion.
- `contest` — user-defined contests, their editor, score and dupe check.
- `awards` — the DXCC band/mode matrix.
- `cw_macros`, `vfo`, `qso_entry` — CW macro expansion, VFO digits and
  tuning steps, and the decisions of the QSO entry line.
- `cabrillo` — the Cabrillo 3.0 contest log text.
- `dialogs`, `filter`, `qsl_labels`, `station_ledger`, `station_profiles`,
  `online_sync` — dialog state, the advanced QSO filter, the QSL label
  queue, the equipment ledger, the station profile list, the sync window's
  tabs and credential checks.
- `audio_recorder` — the recorder/player state of QSO audio memos.
- `qso`, `text` — the logged QSO record; whitespace, trimming, words,
  decimal rendering, UTF-8 lengths, and the two Unicode tables taken from
  the standard library.

`tests/` runs the library on concrete values. `app/` holds the input/output
around it: the UDP send of Wake-on-LAN, the sound device, alert tones and
writing Cabrillo files.
