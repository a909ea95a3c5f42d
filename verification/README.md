# bloatware

The rules of *Bloatware*, a top-down 2D shooter, as a Verus-verified library,
with the Bevy game around it.

- `src/` — the verified library:
  - `game` — session phases (menu, playing, paused, game over), score,
    the pause and start keys, and the run clock split;
  - `chunk` — the chunk grid of the procedural world: chunk seeds, the wall
    rule of a tile, the per-chunk enemy budget, and the set of loaded chunks
    (what to generate around the player, what to drop);
  - `level` — the reader of the hand-drawn arena map and the choice of a
    spawn tile;
  - `player` — movement keys and the sprite-sheet frame rules;
  - `enemy` — how a chasing enemy steers around walls;
  - `debug`, `audio` — debug switches and the sound asset files;
  - `random` — the draws taken from the `rand` crate.
- `app/` — the Bevy program: systems, components, rendering, sound, and all
  floating-point geometry (movement, collisions, distances, noise).
- `tests/` — tests of the library.
