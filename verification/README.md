# Tetris Battle

Two-player online Tetris: one player creates a room and shares a six-character
code, the other joins with it, and every line cleared sends garbage to the
opponent.

The game and room logic is a Verus library with machine-checked contracts:

- `src/piece.rs` – the seven tetrominoes, their rotation states and the SRS wall
  kick tables.
- `src/board.rs` – the 10 x 24 playfield (20 visible rows, 4 hidden): fit
  test, locking, line clearing, rising garbage.
- `src/scoring.rs`, `src/garbage.rs` – Tetris Guideline scoring (single to
  Tetris, back-to-back, combos), levels, gravity and the attack table.
- `src/bag.rs` – the 7-bag randomizer, driven by random picks the caller draws.
- `src/game.rs` – one player's game: moves, rotation with kicks, soft and hard
  drop, locking, garbage cancellation, the piece queue, snapshots.
- `src/room.rs`, `src/record.rs` – room codes, name checks, seat assignment,
  match start and result, the match history record.
- `src/relay.rs` – what a player's connection decides: the join it opens with,
  and which frames are forwarded, end the game or end the relay.
- `src/laws.rs` – properties that relate several operations.

`app/` holds the server (Axum REST and WebSocket relay, SQLite history) and the
WebAssembly binding of the game, which draws its random numbers in the browser.
