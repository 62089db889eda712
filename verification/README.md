# haven_server

Authoritative real-time chess game server: chess meets real-time strategy. The
server is the single source of truth; clients send inputs, the server simulates
and broadcasts the state.

The game itself is a verified Verus library; the program around it is ordinary
Rust on Axum and Tokio.

## The game

- **Fixed ticks** with probabilistic movement: a queued move resolves on a
  per-tick roll of the dice.
- **Melee**: adjacent enemies lock in place and trade damage on a cooldown.
- **Artillery**: an idle pawn can be promoted to a stationary gun that fires in
  straight lines at the first enemy in sight.
- **Match lifecycle**: create, join, start when both seats are taken, end by
  annihilation or timeout.

## Layout

| Path | Content |
|------|---------|
| `src/config.rs`, `src/double.rs` | configuration, its validation, durations and probabilities by bit pattern |
| `src/game_state.rs`, `src/roster.rs`, `src/events.rs` | board, units, state, events |
| `src/rules.rs` | the rules of a tick as functions from world to world |
| `src/simulation.rs` | the tick, proved against the rules |
| `src/input.rs` | command validation |
| `src/network.rs` | messages and what a connection does with each frame |
| `src/match_manager.rs`, `src/api.rs` | seats, the turn of a match, the registry, status codes |
| `src/chance.rs` | random numbers and identifiers; the functions of `rand` and `uuid` that are relied on |
| `src/progress.rs`, `src/laws_*.rs` | what holds of every tick, of the board, of matches and the registry |
| `tests/` | tests of the library |
| `app/` | the server program: sockets, REST, serialization, tasks, configuration file |

## API

| Method | Path | Description |
|--------|------|-------------|
| POST | `/match` | Create a match (optional config overrides). Returns `{ match_id, config }` |
| GET | `/match/{id}` | Public match info (status, players, tick, unit counts) |
| POST | `/match/{id}/join` | Join as player, returns `{ owner, player_token }`; auto-starts when full |
| GET | `/ws/{match_id}?token=...` | WebSocket: `select` / `move` / `upgrade` / `ping` in, `state_snapshot` / `state_delta` / `event` / `error` / `pong` out |
| GET | `/` | Embedded browser client |
