# babyshark

A flows-first packet capture browser for the terminal, with its core verified
in Verus.

- `src/` is the verified library: packet decoding (`pcap`, `capture`), payload
  hints (`hints`), flow grouping and analysis (`flow`), the summaries the
  screens show (`summary`, `weird`, `domains`, `explain`, `timeline`,
  `overview`), streams and byte search (`stream`, `search`, `hexdump`), case
  files and reports (`casefile`, `report`), the AI snapshot (`ai`), live
  capture field parsing (`live`), and the browser's state machine
  (`navigation`, `ui_state`, `keys`, `ui_filter`).
- `app/` is the terminal front end: argument handling, file and process I/O,
  drawing with ratatui, and the key loop that hands each key to the library.
- `tests/` exercises the library on concrete captures built in memory.
