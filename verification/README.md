# cellularhub

The receive pipeline of the CellularHub desktop app as a verified library:
AT and Windows Mobile Broadband replies, SMS multipart assembly, identity,
verification-code extraction and categorisation, the message and eSIM
profile state, the eSIM compatibility (lpac) path and the notification text.
Every function in `src/` carries a contract that Verus proves.

- `src/` — the library, checked by Verus. `text.rs` gives the `str`
  operations the parsers share, with contracts over the `Seq<char>` view;
  the laws of the library are public proof functions beside the code they
  speak of (for example `state::lemma_repeated_poll_adds_nothing`,
  `repoll::lemma_repeated_multipart_poll_adds_nothing`,
  `repoll::lemma_push_grouping`, `repoll::lemma_push_drops_stale_group`,
  `sms::inbox::lemma_push_keeps_parts_in_order`).
- The receive sessions are state machines in the library:
  `providers::session` says which AT command follows each modem reply
  (set-up, listing, reading an indicated slot) and `backend::worker` does the
  same for the AT backend's worker; `backend::esim_compat::probe_next` runs
  the eSIM port probe, whose finding is `probe_decision` of the replies. The
  caller only sends the commands a step names and feeds the replies back.
- `tests/` — ordinary Rust tests against the library.
- `app/` — the Tauri shell: commands, JSON persistence, serial-port and
  process I/O, and the loops that drive the session state machines (baud
  rates tried in turn, the read timeout, the 30-second rescan). Replies are
  interpreted by the library.
