# rsmod

Server-side pathfinding for a tile world, verified with Verus: a zoned map of
tile collision flags, step validation for entities of any size, a
breadth-first route search over a 128 by 128 window, a greedy "naive" mover,
rays for line of sight and line of walk, and the rules for when an entity is
in reach of a loc.

Layout:

- `src/lib.rs`: the entry points, each taking the collision map (and, to
  search, a `PathFinder`); the changes that locs, walls, npcs, players, floors
  and roofs make to the map, with the laws that tie adding and removing
  together.
- `src/rsmod/`: the collision map and its strategies, coordinates, step
  validation, reach rules, the route search, the naive mover and the rays.
- `tests/`: tests against the compiled library.
- `app/`: the process-wide map and path finder that an engine calls through.
