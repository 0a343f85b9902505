# neuroblasters

A multiplayer top-down tank game. Its rules and bookkeeping live in a library
whose functions carry `requires` / `ensures` contracts proved with Verus; a
thin program around it draws the screens, plays sound and talks to the game
server.

## Layout

- `src/` – the verified library
  - `net/protocol/` – the messages exchanged with the server and the objects
    they carry (maps, teams, game phases, kill events)
  - `protocol.rs` – the lobby-and-session identifiers and the errors a
    server reports, with their conversions
  - `session.rs` – the client side of a server session: connection phases,
    which messages are accepted in each phase, at most one pending request,
    answers and game updates handed out once
  - `views.rs` – the stack of screens and its transitions, and how a request
    screen reacts to the session
  - `game/map.rs` – the shipped maps (exact integer geometry), the map cycle
    and the well-formedness of every map
  - `game/pathfinding.rs` – A* search on a 40-unit grid with an exact
    integer priority order; every path returned is a shortest walk through
    free cells; a goal is found whenever the (cell, cost) pairs the search
    can expand before reaching it fit in its expansion budget (always for
    goals within 4 steps)
    (`game/priority.rs` proves the order transitive over the reals)
  - `game/player.rs` – player identity and username validation
  - `game/feed_text.rs` – the banner and side-feed texts of a running game
  - `training.rs` – the tanks placed for a local game against the bots
  - `lobby.rs`, `fps.rs`, `text_input.rs` – game creation choices, the frame
    rate average and text field input filtering
- `tests/` – tests run against the compiled library
- `app/` – the program: window, drawing, audio, physics and bot steering
  (floating point), network transport and wire encoding. The training mode
  against the neural-network bots is not part of the program: its model and
  inference need the `burn` crates, which are too large to build here.
