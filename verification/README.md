# phira

The logic of the Phira duel mode and of its companion tools, written in
Verus: every function in `src/` carries a contract that Verus proves,
except the few wrappers marked `#[verifier::external_body]` (the calls
into std, chrono and qrcode), whose contracts are trusted, not proved;
each says in its doc comment what it claims of the outside function.

- `src/proto.rs`: duel protocol values (interferences, ban/pick actions,
  round outcomes) and the length-prefixed frame format.
- `src/server.rs`: the duel room as a state machine: joining, ban/pick,
  rounds, energy and interferences, disconnects, the room code, and the
  laws of the match (best of three, refused actions change nothing, ...).
- `src/net.rs`, `src/launcher.rs`: the launcher's logic: IPv6 address
  ranking, text helpers, the dynamic DNS request and reports, the log, the
  self check and the QR code of the share address.
- `src/config.rs`: mod flags, option cycles and settings inputs.
- `src/daily.rs`: the daily challenge, chosen from the day number alone.
- `src/history.rs`, `src/history_page.rs`: the play history (capped,
  ordered, merged on import) and what its page shows.
- `src/game.rs`: chart format detection and decisions of the play screen.
- `src/paths.rs`, `src/text.rs`: path and text helpers.

`tests/` exercises the library on concrete values. `app/` holds what
surrounds it: sockets, files, system commands, HTTP requests, JSON and the
floating-point parts of the play screen.
