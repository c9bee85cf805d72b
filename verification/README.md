# factory_sim

A factory simulation and the compact freight-yard game built on it, written
in Verus: the library's behaviour is stated in `requires`/`ensures` contracts
and proved.

- `src/` — the verified library.
  - `content`, `starter`: the item catalog and the authored scenarios.
  - `resources`, `mining`, `production`, `power`, `balance`, `radar`,
    `dispatch`, `alerts`, `metrics`: the parts of a world and their rules.
  - `topology`: the grid, A* routing and its route cache.
  - `world`, `game`: the world state and the tick that advances it.
  - `player`: the compact game — roads, buildings, trucks routed by a
    breadth-first search over roads, production, the market and the building
    allowance; saving and restoring a game's parts.
  - `play`: one request, one response play of the compact game.
  - `shell`: a player's session of the compact game — the tool in hand, the
    selected factory, pause and speed, zoom, and the feedback line.
  - `a11y`: the compact world described as text.
  - `tally`, `text`, `node`: counting, number rendering and node names.
- `tests/` — the test suite.
- `app/` — the `factory_cli` program: argument handling, JSON input and
  output, reading and writing save files.
