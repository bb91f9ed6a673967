# commons

Grids, geometry and game-engine building blocks, and a small market simulation, written in
Verus. Every function under `src/` carries a contract that Verus proves, except two trusted
wrappers in `src/market.rs` whose contracts are believed: `sort_by_key_stable` (std's stable
`sort_by_key`) and `gen_range` (`rand`'s `gen_range`).

- `src/geometry.rs`, `src/grid.rs`, `src/origin_grid.rs`: points, rectangles, and grids of
  cells addressed by position, with or without an origin.
- `src/image.rs`, `src/text.rs`: comparing image data byte by byte, and the decimal text of
  its error message.
- `src/map.rs`, `src/unsafe_ordering.rs`, `src/color.rs`: small helpers.
- `src/engine/`: input events, key bindings, and the decisions of the handlers that drag,
  turn and zoom the view.
- `src/market.rs`: random markets, and the allocation of their supply to their demand,
  nearest markets first.

`app/` holds the program that runs the market simulation, and the parts that work on
floating-point values, files and windows: float geometry, noise, heightmaps, the engine's
traits and the handlers' drawing calls.

`tests/` holds the tests of the library.
