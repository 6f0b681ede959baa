# Last Stop

A bus route puzzle: the player lays route segments on a grid to join stations, buses find
their lines along the network, and passengers ride them to their destinations before they
run out of patience.

- `src/` is the game's logic as a verified library: segment ports and rotations, placing
  and removing segments, the pathfinding graph and its searches, route discovery, the bus
  state machines, boarding and alighting, passenger spawning, objectives, scoring, tips and
  the level definitions. Every function carries a contract that Verus proves.
- `app/` is a Bevy program around the library. It runs headless and writes its screens to
  the console; it holds the floating-point layout and motion, file access for the language
  setting, and the wiring of systems, states and events.
- `tests/` exercises the library on concrete layouts and levels.

Maps keyed by grid position are kept as lists of entries with distinct keys (`PosMap`), and
the shortest-path search keeps its frontier, closed cells and predecessors as lists and a
`PosMap`, so that their contents can be stated exactly in the contracts.
