# snake_game

A terminal snake game with many modes (campaign, mazes, caves, dungeons,
Battle Royale, Survival, Evolution, boss rush, bots and more), written as a
Verus library whose game logic carries machine-checked contracts.

- `src/` is the verified library: the board and its items, the snakes, the
  level generators, the bots' path searches, the tick of play and its
  phases, saving and loading, the high-score file format, and the plain
  one-snake game that the terminal program runs (`classic`).
- `app/` is the plain Rust around it: the terminal program (drawing and
  keys), files on disk, serde copies of the saved data, terminal colours and
  bell, floating-point particles and ratings, and the command line.
- `tests/` runs the library on concrete games.
