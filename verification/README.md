# openGuandan server

The rules engine and room logic of an online Guandan (掼蛋) card game server, written
in Verus. The library in `src/` is verified by Verus: its public functions carry
contracts, and every call into an outside crate goes through a small trusted wrapper
whose contract states what that crate's source or documentation shows.

- `src/types.rs`, `cards.rs`: ranks, suits, seats, the two decks, shuffling, dealing,
  card strength and sorting.
- `src/combinations.rs`: recognising combinations (with wildcards), declarations and
  which combination beats which.
- `src/round.rs`, `match_state.rs`: a round (tribute, return, plays, passes, result)
  and a match climbing from Two to Ace.
- `src/rooms.rs`, `views.rs`: rooms, participants, seats, idempotent commands,
  connection bookkeeping, cleanup, and the per-viewer view of a room.
- `src/config.rs`, `transport.rs`, `rate_limit.rs`, `engine.rs`, `text.rs`: settings,
  request checks, error payloads, rate windows and the Engine.IO handshake gate.
- `src/indexed.rs`, `identity.rs`: the `indexmap`, `uuid`, `rand` and `base64` calls,
  each behind a small trusted wrapper with its contract (the `rand::random_range`
  wrapper `random_below` stands in `round.rs`, where shuffling uses it).
- `app/`: the program around the library: Axum HTTP routes, the Socket.IO transport,
  the locked room registry with its publication queue, and JSON encoding.
- `tests/`: tests of the library.
