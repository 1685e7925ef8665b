# Poker Banting server

A server for the card game Poker Banting: four seats, tricks of singles, pairs,
triples, straights, full houses and fours of a kind, bombs that answer a single
two, bots for empty seats, rooms that people join by a code and come back to by
a token.

## Layout

- `src/` is the library. Verus proves the contract of every function in it, but
  for those of a few wrappers around calls into `rand`, `dashmap` and the standard
  library: these are believed, and the comment above each names the call and says
  what is claimed of it.
  - `game/`: cards, combinations, the rules, fair deals, turns, bots and what
    their search comes to, the engine, rooms and their lobby.
  - `rooms/`: the steps that people take in a room (opening, joining, leaving,
    coming back, settings, the start), the connections, and the overview of all
    rooms.
  - `driver/`: what happens in a room by itself, by the clock, and why a game
    that is on never comes to rest.
  - `protocol.rs`, `ws.rs`, `pubsub.rs`: messages, what each viewer may see of
    them, one client's connection, and messages between servers.
  - `store.rs`, `config.rs`, `text.rs`, `guard.rs`: rooms in memory and keys in
    a shared store, settings, texts and numbers, and tests of what the steps ask
    of a room.
- `tests/` runs the library.
- `app/` is the program: HTTP, WebSockets, Redis, JSON and the clock.

## Reading the contracts

Each type has a model, such as `GameModel` for `GameState`, and `x@` is the model
of `x`. What a step does is a function on models with a body, such as
`GameModel::played` or `ManagerModel::dropped`, and the step's contract says that
it does just that. Functions whose names begin with `law_` state what holds of
several of them together.

A step reads the clock or draws by chance in a thin function, and has a twin that
takes the time or the token as an argument: `leave_room` and `leave_room_at`,
`join_room` and `join_room_with`, `create_room` and `create_room_with`.
