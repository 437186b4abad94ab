# decrypto

A server for the word game Decrypto, played by two teams in a browser.

- `src/` is the game library, verified with Verus: team membership, rounds,
  guesses, scoring, moving the game on, and which command goes to which
  connected player (`decrypto.rs`); the requests that browsers send, from
  their JSON text (`lobby.rs`, `game.rs`; the JSON is read by `serde_json`
  behind a contract); the players known to the server (`state.rs`);
  the commands themselves (`messages.rs`) and their JSON text (`wire.rs`); and the contracts of what the
  library uses from `indexmap`, `rand`, `serde_json` and `std`
  (`collections.rs`, `random.rs`, `text.rs`).  `laws.rs` states what holds
  across operations.
- `app/` is the web server around it (actix-web): routes, sessions,
  websockets, one actor per game that hands events to the library and
  delivers the commands it decides on.
- `tests/` runs the library on concrete games.
